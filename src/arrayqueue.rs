use vstd::prelude::*;

use crate::ring::{empty_slots, wrap_index, wrapped};

verus! {

/// A first-in first-out queue in a circular buffer: the element `k` places
/// behind the head lives in buffer slot `(j + k) mod cap`.
#[derive(Clone, Debug)]
pub struct Array<T> {
    a: Vec<Option<T>>,
    j: usize,
    n: usize,
}

impl<T> View for Array<T> {
    type V = Seq<T>;

    /// The elements from head to tail.
    closed spec fn view(&self) -> Seq<T> {
        Seq::new(
            self.n as nat,
            |k: int| self.a@[wrap_index(self.j as int, k, self.a@.len() as int)]->0,
        )
    }
}

impl<T> Array<T> {
    /// The number of buffer slots.
    pub open spec fn cap(&self) -> nat {
        self.slots().len()
    }

    /// The buffer slots, each empty or holding one element.
    pub closed spec fn slots(&self) -> Seq<Option<T>> {
        self.a@
    }

    /// The buffer slot that holds the head.
    pub closed spec fn front(&self) -> int {
        self.j as int
    }

    /// The buffer slot of the element `k` places behind the head.
    pub open spec fn slot_of(&self, k: int) -> int {
        wrap_index(self.front(), k, self.cap() as int)
    }

    /// The head inside the buffer (or at 0 in a buffer of no slots), at most
    /// `cap` elements, each in an occupied slot, and every other slot empty.
    pub closed spec fn well_formed(&self) -> bool {
        &&& self.j < self.a@.len() || (self.a@.len() == 0 && self.j == 0)
        &&& self.n <= self.a@.len()
        &&& forall|k: int|
            0 <= k < self.n ==> (#[trigger] self.a@[wrap_index(
                self.j as int,
                k,
                self.a@.len() as int,
            )]) is Some
        &&& forall|k: int|
            self.n <= k < self.a@.len() ==> (#[trigger] self.a@[wrap_index(
                self.j as int,
                k,
                self.a@.len() as int,
            )]) is None
    }

    /// An empty queue with one slot.
    pub fn new() -> (r: Self)
        ensures
            r.well_formed(),
            r@.len() == 0,
            r.cap() == 1,
            r.front() == 0,
            forall|k: int| 0 <= k < r.cap() ==> #[trigger] r.slots()[k] is None,
    {
        Self::with_length(1)
    }

    /// An empty queue with `capacity` slots.
    pub fn with_length(capacity: usize) -> (r: Self)
        ensures
            r.well_formed(),
            r@.len() == 0,
            r.cap() == capacity,
            r.front() == 0,
            forall|k: int| 0 <= k < r.cap() ==> #[trigger] r.slots()[k] is None,
    {
        Array { a: Self::allocate_in_heap(capacity), j: 0, n: 0 }
    }

    fn allocate_in_heap(size: usize) -> (r: Vec<Option<T>>)
        ensures
            r@ == Seq::new(size as nat, |k: int| None::<T>),
    {
        empty_slots(size)
    }

    /// The content of buffer slot `s`, or `None` past the end of the buffer.
    pub fn rawget(&self, s: usize) -> (r: Option<T>) where T: Clone
        requires
            self.well_formed(),
        ensures
            s >= self.cap() ==> r is None,
            s < self.cap() ==> {
                &&& r is Some == self.slots()[s as int] is Some
                &&& r is Some ==> cloned(self.slots()[s as int]->0, r->0)
            },
    {
        if s < self.a.len() {
            self.a[s].clone()
        } else {
            None
        }
    }

    /// Moves the elements, head first, to the start of a fresh buffer of
    /// `max(2 n, 1)` slots.
    fn resize(&mut self)
        requires
            old(self).well_formed(),
            old(self).n <= usize::MAX / 2,
        ensures
            final(self).well_formed(),
            final(self)@ == old(self)@,
            final(self).cap() == if old(self).n == 0 { 1 } else { 2 * old(self).n },
            final(self).front() == 0,
            forall|k: int| final(self)@.len() <= k < final(self).cap() ==> #[trigger] final(self).slots()[k] is None,
    {
        let ghost s = self@;
        let c: usize = if self.n == 0 { 1 } else { 2 * self.n };
        let mut b = Self::allocate_in_heap(c);
        std::mem::swap(&mut self.a, &mut b);
        let oldcap = b.len();
        let mut m: usize = 0;
        while m < self.n
            invariant
                self.n == s.len(),
                self.n <= c,
                self.a@.len() == c,
                b@.len() == oldcap,
                self.n > 0 ==> self.j < oldcap,
                self.n <= oldcap,
                0 <= m <= self.n,
                forall|k: int| 0 <= k < m ==> #[trigger] self.a@[k] == Some(s[k]),
                forall|k: int| m <= k < c ==> #[trigger] self.a@[k] is None,
                forall|k: int|
                    m <= k < self.n ==> #[trigger] b@[wrap_index(
                        self.j as int,
                        k,
                        oldcap as int,
                    )] == Some(s[k]),
            decreases self.n - m,
        {
            let q = wrapped(self.j, m, oldcap);
            let mut v: Option<T> = None;
            b.set_and_swap(q, &mut v);
            self.a.set(m, v);
            m += 1;
        }
        self.j = 0;
        assert(self@ =~= s);
    }

    /// Puts `x` at the tail, doubling the buffer first when it is full.
    /// Always succeeds.
    pub fn add(&mut self, x: T) -> (r: bool)
        requires
            old(self).well_formed(),
            old(self)@.len() < usize::MAX / 2,
        ensures
            r,
            final(self).well_formed(),
            final(self)@ == old(self)@.push(x),
            old(self)@.len() < old(self).cap() ==> final(self).cap() == old(self).cap()
                && final(self).front() == old(self).front(),
            old(self)@.len() == old(self).cap() ==> final(self).cap() == (if old(self).cap() == 0 {
                1
            } else {
                2 * old(self).cap()
            }) && final(self).front() == 0,
    {
        if self.n + 1 > self.a.len() {
            self.resize();
        }
        let ghost s = self@;
        let q = wrapped(self.j, self.n, self.a.len());
        self.a.set(q, Some(x));
        self.n += 1;
        assert forall|m: int| self.n <= m < self.a@.len() implies (#[trigger] self.a@[wrap_index(
            self.j as int,
            m,
            self.a@.len() as int,
        )]) is None by {
            assert(wrap_index(self.j as int, m, self.a@.len() as int) != q);
        }
        assert forall|m: int| 0 <= m < self.n implies #[trigger] self.a@[wrap_index(
            self.j as int,
            m,
            self.a@.len() as int,
        )] == Some(s.push(x)[m]) by {
            if m < s.len() {
                assert(wrap_index(self.j as int, m, self.a@.len() as int) != q);
            }
        }
        assert(self@ =~= s.push(x));
        true
    }

    /// Takes the element at the head; `None` when the queue is empty, which is
    /// then left unchanged. Afterwards shrinks the buffer to `max(2 n, 1)`
    /// slots when `3 n < cap`.
    pub fn remove(&mut self) -> (r: Option<T>)
        requires
            old(self).well_formed(),
        ensures
            final(self).well_formed(),
            old(self)@.len() == 0 ==> r is None && *final(self) == *old(self),
            old(self)@.len() > 0 ==> {
                &&& r == Some(old(self)@[0])
                &&& final(self)@ == old(self)@.drop_first()
                &&& final(self).cap() == if 3 * final(self)@.len() < old(self).cap() {
                    if final(self)@.len() == 0 { 1 } else { 2 * final(self)@.len() }
                } else {
                    old(self).cap()
                }
                &&& final(self).front() == if 3 * final(self)@.len() < old(self).cap() {
                    0
                } else if old(self).front() + 1 == old(self).cap() {
                    0
                } else {
                    old(self).front() + 1
                }
            },
    {
        if self.n == 0 {
            return None;
        }
        let ghost s = self@;
        let ghost j0 = self.j;
        let cap = self.a.len();
        let mut x: Option<T> = None;
        self.a.set_and_swap(self.j, &mut x);
        self.j = if self.j + 1 == cap { 0 } else { self.j + 1 };
        self.n -= 1;
        assert forall|m: int| 0 <= m < self.n implies #[trigger] self.a@[wrap_index(
            self.j as int,
            m,
            cap as int,
        )] == Some(s[m + 1]) by {
            assert(wrap_index(self.j as int, m, cap as int) == wrap_index(j0 as int, m + 1, cap as int));
        }
        assert forall|m: int| self.n <= m < cap implies (#[trigger] self.a@[wrap_index(
            self.j as int,
            m,
            cap as int,
        )]) is None by {
            if m + 1 < cap {
                assert(wrap_index(self.j as int, m, cap as int) == wrap_index(j0 as int, m + 1, cap as int));
            } else {
                assert(wrap_index(self.j as int, m, cap as int) == j0);
            }
        }
        assert(self@ =~= s.drop_first());
        if self.n <= usize::MAX / 3 && 3 * self.n < cap {
            self.resize();
        }
        x
    }
}

/// The layout of a well-formed queue: the head inside the buffer (at 0 where
/// the buffer has no slots), at most `cap` elements, the slot of each element
/// holding it, and the `cap - n` slots after the tail empty.
pub proof fn lemma_layout<T>(q: Array<T>)
    requires
        q.well_formed(),
    ensures
        q.cap() == 0 ==> q.front() == 0,
        q.cap() > 0 ==> 0 <= q.front() < q.cap(),
        q@.len() <= q.cap(),
        forall|k: int| 0 <= k < q@.len() ==> #[trigger] q.slots()[q.slot_of(k)] == Some(q@[k]),
        forall|k: int| q@.len() <= k < q.cap() ==> (#[trigger] q.slots()[q.slot_of(k)]) is None,
{
}

} // verus!
