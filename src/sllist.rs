use vstd::prelude::*;

verus! {

/// A node of a singly-linked list whose nodes live in an arena: `next` is the
/// arena index of the following node.
pub struct Node<T> {
    pub x: T,
    pub next: Option<usize>,
}

impl<T> Node<T> {
    /// A node holding `x` with no successor.
    pub fn new(x: T) -> (r: Self)
        ensures
            r.x == x,
            r.next is None,
    {
        Node { x, next: None }
    }
}

/// A singly-linked list over an arena of nodes, with links to its first and
/// last node.
pub struct SLList<T> {
    nodes: Vec<Node<T>>,
    head: Option<usize>,
    tail: Option<usize>,
    n: usize,
}

impl<T> SLList<T> {
    /// The number of elements.
    pub closed spec fn len(&self) -> nat {
        self.n as nat
    }

    /// Holds no node and links to none.
    pub closed spec fn is_empty(&self) -> bool {
        &&& self.nodes@.len() == 0
        &&& self.head is None
        &&& self.tail is None
        &&& self.n == 0
    }

    /// An empty list.
    pub fn new() -> (r: Self)
        ensures
            r.is_empty(),
            r.len() == 0,
    {
        SLList { nodes: Vec::new(), head: None, tail: None, n: 0 }
    }
}

} // verus!
