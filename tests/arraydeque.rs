use array_lists::arraydeque::Array;
use array_lists::list::List;

fn assert_queue(queue: &Array<&str>, expected_list: Vec<Option<&str>>) {
    for (i, e) in expected_list.iter().enumerate() {
        assert_eq!(queue.rawget(i), *e);
    }
}

fn contents(deque: &Array<&'static str>) -> Vec<&'static str> {
    (0..deque.size()).map(|i| deque.get(i).unwrap()).collect()
}

#[test]
fn arraydeque_it_works() {
    let _arraydeque: Array<&str> = Array::new();
    assert_eq!(2 + 2, 4);
}

#[test]
fn test_arraydeque() {
    let mut arraydeque: Array<&str> = Array::with_length(12);
    arraydeque.add(0, "a");
    arraydeque.add(1, "b");
    arraydeque.add(2, "c");
    arraydeque.add(3, "d");
    arraydeque.add(4, "e");
    arraydeque.add(5, "f");
    arraydeque.add(6, "g");
    arraydeque.add(7, "h");

    assert_queue(
        &arraydeque,
        vec![
            Some("a"),
            Some("b"),
            Some("c"),
            Some("d"),
            Some("e"),
            Some("f"),
            Some("g"),
            Some("h"),
            None,
            None,
            None,
            None,
        ],
    );

    arraydeque.remove(2);

    assert_queue(
        &arraydeque,
        vec![
            None,
            Some("a"),
            Some("b"),
            Some("d"),
            Some("e"),
            Some("f"),
            Some("g"),
            Some("h"),
            None,
            None,
            None,
            None,
        ],
    );

    arraydeque.add(4, "x");

    assert_queue(
        &arraydeque,
        vec![
            None,
            Some("a"),
            Some("b"),
            Some("d"),
            Some("e"),
            Some("x"),
            Some("f"),
            Some("g"),
            Some("h"),
            None,
            None,
            None,
        ],
    );

    arraydeque.add(3, "y");

    assert_queue(
        &arraydeque,
        vec![
            Some("a"),
            Some("b"),
            Some("d"),
            Some("y"),
            Some("e"),
            Some("x"),
            Some("f"),
            Some("g"),
            Some("h"),
            None,
            None,
            None,
        ],
    );

    arraydeque.add(3, "z");

    assert_queue(
        &arraydeque,
        vec![
            Some("b"),
            Some("d"),
            Some("z"),
            Some("y"),
            Some("e"),
            Some("x"),
            Some("f"),
            Some("g"),
            Some("h"),
            None,
            None,
            Some("a"),
        ],
    );
}

#[test]
fn deque_logical_order_through_wraparound() {
    let mut deque: Array<&str> = Array::with_length(12);
    for (i, x) in ["a", "b", "c", "d", "e", "f", "g", "h"].iter().enumerate() {
        deque.add(i, x);
    }
    assert_eq!(contents(&deque), vec!["a", "b", "c", "d", "e", "f", "g", "h"]);
    deque.remove(2);
    assert_eq!(contents(&deque), vec!["a", "b", "d", "e", "f", "g", "h"]);
    deque.add(4, "x");
    assert_eq!(contents(&deque), vec!["a", "b", "d", "e", "x", "f", "g", "h"]);
    deque.add(3, "y");
    assert_eq!(contents(&deque), vec!["a", "b", "d", "y", "e", "x", "f", "g", "h"]);
    deque.add(3, "z");
    assert_eq!(
        contents(&deque),
        vec!["a", "b", "d", "z", "y", "e", "x", "f", "g", "h"]
    );
    assert_eq!(deque.size(), 10);
    assert_eq!(deque.rawget(11), Some("a"));
    assert_eq!(deque.get(9), Some("h"));
    assert_eq!(deque.capacity(), 12);
}

#[test]
fn deque_get_after_set() {
    let mut deque: Array<&str> = Array::new();
    deque.add(0, "p");
    deque.add(1, "q");
    deque.add(0, "o");
    for i in 0..deque.size() {
        let before = deque.get(i);
        assert_eq!(deque.set(i, "w"), before);
        assert_eq!(deque.get(i), Some("w"));
    }
    assert_eq!(contents(&deque), vec!["w", "w", "w"]);
}

#[test]
fn deque_out_of_range_access() {
    let mut deque: Array<&str> = Array::with_length(4);
    deque.add(0, "a");
    assert_eq!(deque.get(1), None);
    assert_eq!(deque.get(7), None);
    assert_eq!(deque.set(1, "b"), None);
    assert_eq!(contents(&deque), vec!["a"]);
}

#[test]
fn deque_add_then_remove_restores() {
    let base = ["a", "b", "c", "d", "e"];
    for i in 0..=base.len() {
        let mut deque: Array<&str> = Array::with_length(16);
        for (k, x) in base.iter().enumerate() {
            deque.add(k, x);
        }
        deque.add(i, "x");
        assert_eq!(deque.get(i), Some("x"));
        deque.remove(i);
        assert_eq!(contents(&deque), base.to_vec());
    }
}

#[test]
fn deque_far_side_keeps_slots() {
    let mut deque: Array<&str> = Array::with_length(8);
    for (k, x) in ["a", "b", "c", "d", "e", "f"].iter().enumerate() {
        deque.add(k, x);
    }
    // Near the back: the front half stays in place.
    deque.add(4, "x");
    let slots: Vec<Option<&str>> = (0..8).map(|s| deque.rawget(s)).collect();
    assert_eq!(
        slots,
        vec![Some("a"), Some("b"), Some("c"), Some("d"), Some("x"), Some("e"), Some("f"), None]
    );
    // Near the front: the back part stays in place, the front moves back.
    deque.add(1, "y");
    let slots: Vec<Option<&str>> = (0..8).map(|s| deque.rawget(s)).collect();
    assert_eq!(
        slots,
        vec![Some("y"), Some("b"), Some("c"), Some("d"), Some("x"), Some("e"), Some("f"), Some("a")]
    );
    assert_eq!(contents(&deque), vec!["a", "y", "b", "c", "d", "x", "e", "f"]);
}

#[test]
fn deque_grows_and_shrinks() {
    let mut deque: Array<&str> = Array::new();
    assert_eq!(deque.capacity(), 1);
    deque.add(0, "a");
    assert_eq!(deque.capacity(), 1);
    deque.add(1, "b");
    assert_eq!(deque.capacity(), 2);
    deque.add(2, "c");
    assert_eq!(deque.capacity(), 4);
    deque.add(3, "d");
    deque.add(4, "e");
    assert_eq!(deque.capacity(), 8);
    deque.remove(0);
    deque.remove(0);
    assert_eq!(deque.capacity(), 8);
    deque.remove(0);
    // 3 * 2 < 8: shrink to 4.
    assert_eq!(deque.capacity(), 4);
    assert_eq!(contents(&deque), vec!["d", "e"]);
    assert_eq!(deque.rawget(0), Some("d"));
    deque.remove(1);
    // 3 * 1 < 4: shrink to 2.
    assert_eq!(deque.capacity(), 2);
    deque.remove(0);
    assert_eq!(deque.size(), 0);
    assert_eq!(deque.capacity(), 1);
}

#[test]
fn deque_zero_capacity_is_one_slot() {
    let mut deque: Array<&str> = Array::with_length(0);
    assert_eq!(deque.capacity(), 1);
    deque.add(0, "a");
    assert_eq!(contents(&deque), vec!["a"]);
}
