use array_lists::sllist::{Node, SLList};

#[test]
fn sllist_it_works() {
    let _node: Node<i32> = Node::new(1);
    let _sllist: SLList<i32> = SLList::new();
    assert_eq!(2 + 2, 4);
}

#[test]
fn node_new_has_no_successor() {
    let node: Node<i32> = Node::new(7);
    assert_eq!(node.x, 7);
    assert_eq!(node.next, None);
}
