use array_lists::arraystack::Array;
use array_lists::list::List;

#[test]
fn arraystack_it_works() {
    let mut arraystack: Array<&str> = Array::new();
    assert_eq!(arraystack.capacity(), 1);
    assert_eq!(arraystack.get(0), None);

    arraystack.set(0, "b");
    assert_eq!(arraystack.get(0), Some("b"));

    let actual = arraystack.set(0, "c");
    assert_eq!(actual, Some("b"));
}

#[test]
fn test_arraystack() {
    let mut arraystack: Array<&str> = Array::with_length(6);
    assert_eq!(arraystack.capacity(), 6);

    arraystack.add(0, "b");
    arraystack.add(1, "r");
    arraystack.add(2, "e");
    arraystack.add(3, "d");

    assert_eq!(arraystack.capacity(), 6);
    assert_eq!(arraystack.size(), 4);

    assert_eq!(arraystack.get(0), Some("b"));
    assert_eq!(arraystack.get(1), Some("r"));
    assert_eq!(arraystack.get(2), Some("e"));
    assert_eq!(arraystack.get(3), Some("d"));

    arraystack.add(2, "e");
    assert_eq!(arraystack.capacity(), 6);
    assert_eq!(arraystack.size(), 5);

    arraystack.add(5, "r");

    assert_eq!(arraystack.capacity(), 6);
    assert_eq!(arraystack.size(), 6);

    assert_eq!(arraystack.get(0), Some("b"));
    assert_eq!(arraystack.get(1), Some("r"));
    assert_eq!(arraystack.get(2), Some("e"));
    assert_eq!(arraystack.get(3), Some("e"));
    assert_eq!(arraystack.get(4), Some("d"));
    assert_eq!(arraystack.get(5), Some("r"));

    arraystack.add(5, "e");

    assert_eq!(arraystack.size(), 7);
    assert_eq!(arraystack.capacity(), 12);

    arraystack.remove(4);
    assert_eq!(arraystack.size(), 6);
    assert_eq!(arraystack.capacity(), 12);

    arraystack.remove(4);
    assert_eq!(arraystack.size(), 5);
    assert_eq!(arraystack.capacity(), 12);

    arraystack.remove(4);
    assert_eq!(arraystack.size(), 4);
    assert_eq!(arraystack.capacity(), 8);

    arraystack.remove(4);
    assert_eq!(arraystack.size(), 3);
    assert_eq!(arraystack.capacity(), 8);

    assert_eq!(arraystack.get(0), Some("b"));
    assert_eq!(arraystack.get(1), Some("r"));
    assert_eq!(arraystack.get(2), Some("e"));
}

#[test]
fn stack_remove_rotates_out_of_range() {
    let mut stack: Array<&str> = Array::with_length(8);
    for (k, x) in ["a", "b", "c", "d"].iter().enumerate() {
        stack.add(k, x);
    }
    stack.remove(1);
    assert_eq!(stack.size(), 3);
    assert_eq!(stack.get(0), Some("a"));
    assert_eq!(stack.get(1), Some("c"));
    assert_eq!(stack.get(2), Some("d"));
    // The removed element sits just past the last one.
    assert_eq!(stack.get(3), Some("b"));
    assert_eq!(stack.capacity(), 8);
}

#[test]
fn stack_zero_capacity() {
    let mut stack: Array<&str> = Array::with_length(0);
    assert_eq!(stack.capacity(), 0);
    assert_eq!(stack.get(0), None);
    assert_eq!(stack.set(0, "x"), None);
    stack.add(0, "a");
    assert_eq!(stack.capacity(), 1);
    assert_eq!(stack.get(0), Some("a"));
    stack.remove(0);
    assert_eq!(stack.size(), 0);
    assert_eq!(stack.capacity(), 1);
}
