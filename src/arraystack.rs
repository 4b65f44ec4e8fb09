use vstd::prelude::*;

use crate::list::List;
use crate::ring::{empty_slots, move_slot};

verus! {

/// An indexable sequence in a contiguous buffer: logical index `k` lives in
/// buffer slot `k`.
///
/// `get` and `set` address buffer slots directly, so a slot past the last
/// element can be read and written without changing the sequence.
#[derive(Clone, Debug)]
pub struct Array<T> {
    a: Vec<Option<T>>,
    n: usize,
}

impl<T> View for Array<T> {
    type V = Seq<T>;

    /// The elements in order.
    closed spec fn view(&self) -> Seq<T> {
        Seq::new(self.n as nat, |k: int| self.a@[k]->0)
    }
}

impl<T> Array<T> {
    /// The number of buffer slots.
    pub open spec fn cap(&self) -> nat {
        self.slots().len()
    }

    /// The buffer slots, each empty or holding one element.
    pub closed spec fn slots(&self) -> Seq<Option<T>> {
        self.a@
    }

    /// At most `cap` elements, each in an occupied slot.
    pub closed spec fn well_formed(&self) -> bool {
        &&& self.n <= self.a@.len()
        &&& forall|k: int| 0 <= k < self.n ==> (#[trigger] self.a@[k]) is Some
    }

    /// The number of buffer slots.
    pub fn capacity(&self) -> (r: usize)
        ensures
            r == self.cap(),
    {
        self.a.len()
    }

    /// An empty sequence with one slot.
    pub fn new() -> (r: Self)
        ensures
            r.well_formed(),
            r@.len() == 0,
            r.cap() == 1,
            forall|k: int| 0 <= k < r.cap() ==> #[trigger] r.slots()[k] is None,
    {
        Self::with_length(1)
    }

    /// An empty sequence with `capacity` slots.
    pub fn with_length(capacity: usize) -> (r: Self)
        ensures
            r.well_formed(),
            r@.len() == 0,
            r.cap() == capacity,
            forall|k: int| 0 <= k < r.cap() ==> #[trigger] r.slots()[k] is None,
    {
        Array { a: Self::allocate_in_heap(capacity), n: 0 }
    }

    fn allocate_in_heap(size: usize) -> (r: Vec<Option<T>>)
        ensures
            r@ == Seq::new(size as nat, |k: int| None::<T>),
    {
        empty_slots(size)
    }

    /// Moves the elements to a fresh buffer of `max(2 n, 1)` slots.
    fn resize(&mut self)
        requires
            old(self).well_formed(),
            old(self).n <= usize::MAX / 2,
        ensures
            final(self).well_formed(),
            final(self)@ == old(self)@,
            final(self).cap() == if old(self).n == 0 { 1 } else { 2 * old(self).n },
            forall|k: int| final(self)@.len() <= k < final(self).cap() ==> #[trigger] final(self).slots()[k] is None,
    {
        let ghost s = self@;
        let c: usize = if self.n == 0 { 1 } else { 2 * self.n };
        let mut b = Self::allocate_in_heap(c);
        std::mem::swap(&mut self.a, &mut b);
        let mut m: usize = 0;
        while m < self.n
            invariant
                self.n == s.len(),
                self.n <= c,
                self.a@.len() == c,
                self.n <= b@.len(),
                0 <= m <= self.n,
                forall|k: int| 0 <= k < m ==> #[trigger] self.a@[k] == Some(s[k]),
                forall|k: int| m <= k < c ==> #[trigger] self.a@[k] is None,
                forall|k: int| m <= k < self.n ==> #[trigger] b@[k] == Some(s[k]),
            decreases self.n - m,
        {
            let mut v: Option<T> = None;
            b.set_and_swap(m, &mut v);
            self.a.set(m, v);
            m += 1;
        }
        assert(self@ =~= s);
    }
}

impl<T: Clone> List<T> for Array<T> {
    open spec fn items(&self) -> Seq<T> {
        self@
    }

    open spec fn inv(&self) -> bool {
        self.well_formed()
    }

    fn size(&self) -> (r: usize) {
        self.n
    }

    /// A clone of the content of buffer slot `i`; `None` past the buffer.
    fn get(&self, i: usize) -> (r: Option<T>)
        ensures
            i >= self.cap() ==> r is None,
            i < self.cap() ==> {
                &&& r is Some == self.slots()[i as int] is Some
                &&& r is Some ==> cloned(self.slots()[i as int]->0, r->0)
            },
    {
        if i < self.a.len() {
            self.a[i].clone()
        } else {
            None
        }
    }

    /// Puts `x` in buffer slot `i` and returns what the slot held; past the
    /// buffer, returns `None` and changes nothing.
    fn set(&mut self, i: usize, x: T) -> (r: Option<T>)
        ensures
            final(self).cap() == old(self).cap(),
            i >= old(self).cap() ==> r is None && *final(self) == *old(self),
            i < old(self).cap() ==> {
                &&& final(self).slots() == old(self).slots().update(i as int, Some(x))
                &&& r == old(self).slots()[i as int]
                &&& final(self)@.len() == old(self)@.len()
            },
    {
        if i < self.a.len() {
            let mut v: Option<T> = Some(x);
            self.a.set_and_swap(i, &mut v);
            assert(i < old(self)@.len() ==> self@ =~= old(self)@.update(i as int, x));
            assert(i >= old(self)@.len() ==> self@ =~= old(self)@);
            v
        } else {
            None
        }
    }

    /// Doubles the buffer first when it is full (one slot where it had none).
    fn add(&mut self, i: usize, x: T)
        ensures
            old(self)@.len() < old(self).cap() ==> final(self).cap() == old(self).cap(),
            old(self)@.len() == old(self).cap() ==> final(self).cap() == if old(self).cap() == 0 {
                1
            } else {
                2 * old(self).cap()
            },
    {
        if self.n + 1 > self.a.len() {
            self.resize();
        }
        let ghost s = self@;
        let cap = self.a.len();
        let mut k: usize = self.n;
        while k > i
            invariant
                self.a@.len() == cap,
                self.n == s.len(),
                self.n < cap,
                i <= k <= self.n,
                forall|m: int| 0 <= m < k ==> #[trigger] self.a@[m] == Some(s[m]),
                forall|m: int| k < m <= self.n ==> #[trigger] self.a@[m] == Some(s[m - 1]),
            decreases k - i,
        {
            move_slot(&mut self.a, k, k - 1);
            k -= 1;
        }
        self.a.set(i, Some(x));
        self.n += 1;
        assert(self@ =~= s.insert(i as int, x));
    }

    /// Rotates the removed element to just past the last one, then shrinks the
    /// buffer to `max(2 n, 1)` slots when `cap >= 3 n`.
    fn remove(&mut self, i: usize)
        ensures
            final(self).cap() == if old(self).cap() >= 3 * final(self)@.len() {
                if final(self)@.len() == 0 { 1 } else { 2 * final(self)@.len() }
            } else {
                old(self).cap()
            },
    {
        let ghost s = self@;
        let cap = self.a.len();
        if i < self.n {
            let mut k: usize = i;
            while k + 1 < self.n
                invariant
                    self.a@.len() == cap,
                    self.n == s.len(),
                    self.n <= cap,
                    i <= k < self.n,
                    forall|m: int| 0 <= m < i ==> #[trigger] self.a@[m] == Some(s[m]),
                    forall|m: int| i <= m < k ==> #[trigger] self.a@[m] == Some(s[m + 1]),
                    forall|m: int| k < m < self.n ==> #[trigger] self.a@[m] == Some(s[m]),
                    self.a@[k as int] == Some(s[i as int]),
                decreases self.n - k,
            {
                let mut v: Option<T> = None;
                self.a.set_and_swap(k, &mut v);
                self.a.set_and_swap(k + 1, &mut v);
                self.a.set(k, v);
                k += 1;
            }
        }
        self.n -= 1;
        assert(self@ =~= s.remove(i as int));
        if self.n <= usize::MAX / 3 && cap >= 3 * self.n {
            self.resize();
        }
    }
}

/// The layout of a well-formed stack: at most `cap` elements, and slot `k`
/// holding the element at index `k`.
pub proof fn lemma_layout<T>(a: Array<T>)
    requires
        a.well_formed(),
    ensures
        a@.len() <= a.cap(),
        forall|k: int| 0 <= k < a@.len() ==> #[trigger] a.slots()[k] == Some(a@[k]),
{
}

} // verus!
