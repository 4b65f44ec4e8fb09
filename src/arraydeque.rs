use vstd::prelude::*;

use crate::list::List;
use crate::ring::{empty_slots, move_slot, wrap_index, wrapped};

verus! {

/// A double-ended indexable sequence in a circular buffer.
///
/// Logical index `k` lives in buffer slot `(j + k) mod cap`. Insertion and
/// removal shift the elements on whichever side of the position is shorter.
#[derive(Clone)]
pub struct Array<T> {
    a: Vec<Option<T>>,
    j: usize,
    n: usize,
    moved: Ghost<nat>,
    adds: Ghost<nat>,
    removes: Ghost<nat>,
}

impl<T> View for Array<T> {
    type V = Seq<T>;

    /// The elements in logical order.
    closed spec fn view(&self) -> Seq<T> {
        Seq::new(
            self.n as nat,
            |k: int| self.a@[wrap_index(self.j as int, k, self.a@.len() as int)]->0,
        )
    }
}

impl<T> Array<T> {
    /// The number of buffer slots.
    pub open spec fn cap(&self) -> nat {
        self.slots().len()
    }

    /// The buffer slots, each empty or holding one element.
    pub closed spec fn slots(&self) -> Seq<Option<T>> {
        self.a@
    }

    /// The buffer slot that holds logical index 0.
    pub closed spec fn front(&self) -> int {
        self.j as int
    }

    /// The buffer slot of logical index `k`.
    pub open spec fn slot_of(&self, k: int) -> int {
        wrap_index(self.front(), k, self.cap() as int)
    }

    /// The bookkeeping counters of `self` and `o` agree.
    closed spec fn same_counters(&self, o: &Self) -> bool {
        &&& self.moved == o.moved
        &&& self.adds == o.adds
        &&& self.removes == o.removes
    }

    /// At least one slot, the front inside the buffer, at most `cap` elements,
    /// each logical index backed by an occupied slot, every other slot empty,
    /// and as many elements as insertions minus removals.
    pub closed spec fn well_formed(&self) -> bool {
        &&& 1 <= self.a@.len()
        &&& self.j < self.a@.len()
        &&& self.n <= self.a@.len()
        &&& forall|k: int|
            0 <= k < self.n ==> (#[trigger] self.a@[wrap_index(
                self.j as int,
                k,
                self.a@.len() as int,
            )]) is Some
        &&& forall|k: int|
            self.n <= k < self.a@.len() ==> (#[trigger] self.a@[wrap_index(
                self.j as int,
                k,
                self.a@.len() as int,
            )]) is None
        &&& self.n == self.adds@ - self.removes@
    }

    /// Slot `k` of the buffer holds the element at logical index `k`, for
    /// every element, and every slot after them is empty.
    pub open spec fn packed(&self) -> bool {
        &&& self.front() == 0
        &&& forall|k: int| 0 <= k < self@.len() ==> #[trigger] self.slots()[k] == Some(self@[k])
        &&& forall|k: int| self@.len() <= k < self.cap() ==> #[trigger] self.slots()[k] is None
    }

    /// At most three slots per element, or a single slot when empty.
    pub open spec fn balanced(&self) -> bool {
        3 * self@.len() >= self.cap() || (self@.len() == 0 && self.cap() == 1)
    }

    /// The number of elements that resizing has copied since construction.
    pub closed spec fn resize_moves(&self) -> nat {
        self.moved@
    }

    /// The number of insertions since construction.
    pub closed spec fn add_count(&self) -> nat {
        self.adds@
    }

    /// The number of removals since construction.
    pub closed spec fn remove_count(&self) -> nat {
        self.removes@
    }

    /// The number of insertions and removals since construction.
    pub open spec fn op_count(&self) -> nat {
        self.add_count() + self.remove_count()
    }

    /// The distance between the capacity and twice the size: the credit that
    /// pays for the next resize.
    pub open spec fn potential(&self) -> int {
        let d = 2 * self@.len() - self.cap();
        if d >= 0 { d } else { -d }
    }

    /// Either nothing has been resized yet, or the resize work plus the
    /// potential is at most two per insertion or removal.
    pub open spec fn amortized(&self) -> bool {
        self.resize_moves() == 0 || self.resize_moves() + self.potential() <= 2 * self.op_count()
    }

    /// An empty sequence with one slot.
    pub fn new() -> (r: Self)
        ensures
            r.amortized(),
            r.add_count() == 0,
            r.remove_count() == 0,
            r.well_formed(),
            r@.len() == 0,
            r.cap() == 1,
            r.packed(),
    {
        Self::with_length(1)
    }

    /// An empty sequence with `capacity` slots, or one slot where `capacity` is 0.
    pub fn with_length(capacity: usize) -> (r: Self)
        ensures
            r.amortized(),
            r.add_count() == 0,
            r.remove_count() == 0,
            r.well_formed(),
            r@.len() == 0,
            r.cap() == if capacity == 0 { 1 } else { capacity as nat },
            r.packed(),
    {
        let size: usize = if capacity == 0 { 1 } else { capacity };
        Array {
            a: Self::allocate_in_heap(size),
            j: 0,
            n: 0,
            moved: Ghost(0),
            adds: Ghost(0),
            removes: Ghost(0),
        }
    }

    fn allocate_in_heap(size: usize) -> (r: Vec<Option<T>>)
        ensures
            r@ == Seq::new(size as nat, |k: int| None::<T>),
    {
        empty_slots(size)
    }

    /// The number of buffer slots.
    pub fn capacity(&self) -> (r: usize)
        ensures
            r == self.cap(),
    {
        self.a.len()
    }

    /// The content of buffer slot `s`, or `None` past the end of the buffer.
    pub fn rawget(&self, s: usize) -> (r: Option<T>) where T: Clone
        requires
            self.well_formed(),
        ensures
            s >= self.cap() ==> r is None,
            s < self.cap() ==> {
                &&& r is Some == self.slots()[s as int] is Some
                &&& r is Some ==> cloned(self.slots()[s as int]->0, r->0)
            },
    {
        if s < self.a.len() {
            self.a[s].clone()
        } else {
            None
        }
    }

    /// Frees logical position `i` by moving the front back one slot and the
    /// elements before `i` one slot towards the front; the others stay put.
    fn open_gap_front(&mut self, i: usize)
        requires
            old(self).well_formed(),
            old(self).n < old(self).a@.len(),
            i <= old(self).n,
        ensures
            final(self).same_counters(old(self)),
            final(self).a@.len() == old(self).a@.len(),
            final(self).n == old(self).n,
            final(self).j == if old(self).j == 0 { old(self).a@.len() - 1 } else { old(self).j - 1 },
            forall|m: int| 0 <= m < i ==> #[trigger] final(self).a@[wrap_index(final(self).j as int, m, final(self).a@.len() as int)] == Some(old(self)@[m]),
            forall|m: int|
                i < m <= old(self).n ==> #[trigger] final(self).a@[wrap_index(final(self).j as int, m, final(self).a@.len() as int)] == Some(
                    old(self)@[m - 1],
                ),
            forall|k: int|
                i <= k < old(self).n ==> #[trigger] final(self).a@[wrap_index(old(self).j as int, k, old(self).a@.len() as int)]
                    == old(self).a@[wrap_index(old(self).j as int, k, old(self).a@.len() as int)],
            forall|m: int|
                old(self).n < m < old(self).a@.len() ==> (#[trigger] final(self).a@[wrap_index(final(self).j as int, m, final(self).a@.len() as int)]) is None,
    {
        let ghost s = self@;
        let ghost j0 = self.j;
        let cap = self.a.len();
        self.j = if self.j == 0 { cap - 1 } else { self.j - 1 };
        let ghost j1 = self.j;
        assert forall|m: int| self.n < m < cap implies (#[trigger] self.a@[wrap_index(
            j1 as int,
            m,
            cap as int,
        )]) is None by {
            assert(wrap_index(j1 as int, m, cap as int) == wrap_index(j0 as int, m - 1, cap as int));
        }
        let mut k: usize = 0;
        while k < i
            invariant
                self.same_counters(old(self)),
                self.a@.len() == cap,
                self.j == j1,
                self.j < cap,
                self.n == s.len(),
                self.n < cap,
                i <= self.n,
                0 <= k <= i,
                forall|m: int|
                    0 <= m < k ==> #[trigger] self.a@[wrap_index(self.j as int, m, cap as int)]
                        == Some(s[m]),
                forall|m: int|
                    k < m <= self.n ==> #[trigger] self.a@[wrap_index(self.j as int, m, cap as int)]
                        == Some(s[m - 1]),
                forall|m: int|
                    self.n < m < cap ==> (#[trigger] self.a@[wrap_index(self.j as int, m, cap as int)]) is None,
            decreases i - k,
        {
            let to = wrapped(self.j, k, cap);
            let from = wrapped(self.j, k + 1, cap);
            move_slot(&mut self.a, to, from);
            k += 1;
        }
        assert forall|k: int| i <= k < s.len() implies #[trigger] self.a@[wrap_index(
            j0 as int,
            k,
            cap as int,
        )] == old(self).a@[wrap_index(j0 as int, k, cap as int)] by {
            assert(wrap_index(j0 as int, k, cap as int) == wrap_index(self.j as int, k + 1, cap as int));
        }
    }

    /// Frees logical position `i` by moving the elements from `i` on one slot
    /// towards the back; the front and the elements before `i` stay put.
    fn open_gap_back(&mut self, i: usize)
        requires
            old(self).well_formed(),
            old(self).n < old(self).a@.len(),
            i <= old(self).n,
        ensures
            final(self).same_counters(old(self)),
            final(self).a@.len() == old(self).a@.len(),
            final(self).n == old(self).n,
            final(self).j == old(self).j,
            forall|m: int| 0 <= m < i ==> #[trigger] final(self).a@[wrap_index(final(self).j as int, m, final(self).a@.len() as int)] == Some(old(self)@[m]),
            forall|m: int|
                i < m <= old(self).n ==> #[trigger] final(self).a@[wrap_index(final(self).j as int, m, final(self).a@.len() as int)] == Some(
                    old(self)@[m - 1],
                ),
            forall|k: int|
                0 <= k < i ==> #[trigger] final(self).a@[wrap_index(old(self).j as int, k, old(self).a@.len() as int)]
                    == old(self).a@[wrap_index(old(self).j as int, k, old(self).a@.len() as int)],
            forall|m: int|
                old(self).n < m < old(self).a@.len() ==> (#[trigger] final(self).a@[wrap_index(final(self).j as int, m, final(self).a@.len() as int)]) is None,
    {
        let ghost s = self@;
        let cap = self.a.len();
        let ghost j0 = self.j;
        let mut k: usize = self.n;
        while k > i
            invariant
                self.same_counters(old(self)),
                self.a@.len() == cap,
                self.j == j0,
                self.j < cap,
                self.n == s.len(),
                self.n < cap,
                i <= k <= self.n,
                forall|m: int|
                    0 <= m < k ==> #[trigger] self.a@[wrap_index(self.j as int, m, cap as int)]
                        == Some(s[m]),
                forall|m: int|
                    k < m <= self.n ==> #[trigger] self.a@[wrap_index(self.j as int, m, cap as int)]
                        == Some(s[m - 1]),
                forall|m: int|
                    self.n < m < cap ==> (#[trigger] self.a@[wrap_index(self.j as int, m, cap as int)]) is None,
            decreases k - i,
        {
            let to = wrapped(self.j, k, cap);
            let from = wrapped(self.j, k - 1, cap);
            move_slot(&mut self.a, to, from);
            k -= 1;
        }
    }

    /// Puts `x` at logical index `i` of a deque with a free slot, shifting the
    /// shorter side, and counts the operation; the elements on the far side of
    /// `i` keep their slots.
    fn insert_at(&mut self, i: usize, x: T)
        requires
            old(self).well_formed(),
            old(self).n < old(self).a@.len(),
            i <= old(self).n,
        ensures
            final(self).well_formed(),
            final(self)@ == old(self)@.insert(i as int, x),
            final(self).cap() == old(self).cap(),
            final(self).resize_moves() == old(self).resize_moves(),
            final(self).add_count() == old(self).add_count() + 1,
            final(self).remove_count() == old(self).remove_count(),
            if i < old(self)@.len() / 2 {
                &&& final(self).front() == if old(self).front() == 0 {
                    old(self).cap() - 1
                } else {
                    old(self).front() - 1
                }
                &&& forall|k: int|
                    i <= k < old(self)@.len() ==> #[trigger] final(self).slots()[old(self).slot_of(k)]
                        == old(self).slots()[old(self).slot_of(k)]
            } else {
                &&& final(self).front() == old(self).front()
                &&& forall|k: int|
                    0 <= k < i ==> #[trigger] final(self).slots()[old(self).slot_of(k)]
                        == old(self).slots()[old(self).slot_of(k)]
            },
    {
        let ghost s = self@;
        if i < self.n / 2 {
            self.open_gap_front(i);
        } else {
            self.open_gap_back(i);
        }
        let q = wrapped(self.j, i, self.a.len());
        self.a.set(q, Some(x));
        self.n += 1;
        self.adds = Ghost((self.adds@ + 1) as nat);
        assert forall|m: int| 0 <= m < self.n implies #[trigger] self.a@[wrap_index(
            self.j as int,
            m,
            self.a@.len() as int,
        )] == Some(s.insert(i as int, x)[m]) by {
            if m != i {
                assert(wrap_index(self.j as int, m, self.a@.len() as int) != q);
            }
        }
        assert(self@ =~= s.insert(i as int, x));
    }

    /// Takes out the element at logical index `i`, shifting the shorter side,
    /// and counts the operation; the elements on the far side of `i` keep
    /// their slots.
    fn delete_at(&mut self, i: usize)
        requires
            old(self).well_formed(),
            i < old(self).n,
        ensures
            final(self).well_formed(),
            final(self)@ == old(self)@.remove(i as int),
            final(self).cap() == old(self).cap(),
            final(self).resize_moves() == old(self).resize_moves(),
            final(self).add_count() == old(self).add_count(),
            final(self).remove_count() == old(self).remove_count() + 1,
            if i < old(self)@.len() / 2 {
                &&& final(self).front() == if old(self).front() + 1 == old(self).cap() {
                    0
                } else {
                    old(self).front() + 1
                }
                &&& forall|k: int|
                    i < k < old(self)@.len() ==> #[trigger] final(self).slots()[old(self).slot_of(k)]
                        == old(self).slots()[old(self).slot_of(k)]
            } else {
                &&& final(self).front() == old(self).front()
                &&& forall|k: int|
                    0 <= k < i ==> #[trigger] final(self).slots()[old(self).slot_of(k)]
                        == old(self).slots()[old(self).slot_of(k)]
            },
    {
        let ghost s = self@;
        let ghost j0 = self.j;
        let cap = self.a.len();
        let q = wrapped(self.j, i, cap);
        let mut gone: Option<T> = None;
        self.a.set_and_swap(q, &mut gone);
        if i < self.n / 2 {
            let mut k: usize = i;
            while k > 0
                invariant
                    self.j == j0,
                    self.same_counters(old(self)),
                    self.a@.len() == cap,
                    self.j < cap,
                    self.n == s.len(),
                    self.n <= cap,
                    i < self.n,
                    0 <= k <= i,
                    forall|m: int|
                        0 <= m < k ==> #[trigger] self.a@[wrap_index(self.j as int, m, cap as int)]
                            == Some(s[m]),
                    forall|m: int|
                        k < m <= i ==> #[trigger] self.a@[wrap_index(self.j as int, m, cap as int)]
                            == Some(s[m - 1]),
                    forall|m: int|
                        i < m < self.n ==> #[trigger] self.a@[wrap_index(self.j as int, m, cap as int)]
                            == Some(s[m]),
                    forall|m: int|
                        self.n <= m < cap ==> (#[trigger] self.a@[wrap_index(self.j as int, m, cap as int)]) is None,
                    self.a@[wrap_index(self.j as int, k as int, cap as int)] is None,
                decreases k,
            {
                let to = wrapped(self.j, k, cap);
                let from = wrapped(self.j, k - 1, cap);
                move_slot(&mut self.a, to, from);
                k -= 1;
            }
            self.j = if self.j + 1 == cap { 0 } else { self.j + 1 };
            assert forall|m: int| 0 <= m < s.len() - 1 implies #[trigger] self.a@[wrap_index(
                self.j as int,
                m,
                cap as int,
            )] == Some(s.remove(i as int)[m]) by {
                assert(wrap_index(self.j as int, m, cap as int) == wrap_index(j0 as int, m + 1, cap as int));
            }
            assert forall|m: int| s.len() - 1 <= m < cap implies (#[trigger] self.a@[wrap_index(
                self.j as int,
                m,
                cap as int,
            )]) is None by {
                if m + 1 < cap {
                    assert(wrap_index(self.j as int, m, cap as int) == wrap_index(j0 as int, m + 1, cap as int));
                } else {
                    assert(wrap_index(self.j as int, m, cap as int) == wrap_index(j0 as int, 0, cap as int));
                }
            }
        } else {
            let mut k: usize = i;
            while k + 1 < self.n
                invariant
                    self.j == j0,
                    self.same_counters(old(self)),
                    self.a@.len() == cap,
                    self.j < cap,
                    self.n == s.len(),
                    self.n <= cap,
                    i <= k < self.n,
                    forall|m: int|
                        0 <= m < i ==> #[trigger] self.a@[wrap_index(self.j as int, m, cap as int)]
                            == Some(s[m]),
                    forall|m: int|
                        i <= m < k ==> #[trigger] self.a@[wrap_index(self.j as int, m, cap as int)]
                            == Some(s[m + 1]),
                    forall|m: int|
                        k < m < self.n ==> #[trigger] self.a@[wrap_index(self.j as int, m, cap as int)]
                            == Some(s[m]),
                    forall|m: int|
                        self.n <= m < cap ==> (#[trigger] self.a@[wrap_index(self.j as int, m, cap as int)]) is None,
                    self.a@[wrap_index(self.j as int, k as int, cap as int)] is None,
                decreases self.n - k,
            {
                let to = wrapped(self.j, k, cap);
                let from = wrapped(self.j, k + 1, cap);
                move_slot(&mut self.a, to, from);
                k += 1;
            }
        }
        self.n -= 1;
        self.removes = Ghost((self.removes@ + 1) as nat);
        assert(self@ =~= s.remove(i as int));
    }

    /// Moves the elements, in logical order, to the start of a fresh buffer of
    /// `max(2 n, 1)` slots.
    fn resize(&mut self)
        requires
            old(self).well_formed(),
            old(self).n <= usize::MAX / 2,
        ensures
            final(self).well_formed(),
            final(self)@ == old(self)@,
            final(self).cap() == if old(self).n == 0 { 1 } else { 2 * old(self).n },
            final(self).packed(),
            final(self).resize_moves() == old(self).resize_moves() + old(self).n,
            final(self).op_count() == old(self).op_count(),
    {
        let ghost s = self@;
        let c: usize = if self.n == 0 { 1 } else { 2 * self.n };
        let mut b = Self::allocate_in_heap(c);
        std::mem::swap(&mut self.a, &mut b);
        let oldcap = b.len();
        let mut m: usize = 0;
        while m < self.n
            invariant
                self.same_counters(old(self)),
                self.n == s.len(),
                self.n <= c,
                self.a@.len() == c,
                b@.len() == oldcap,
                self.j < oldcap,
                self.n <= oldcap,
                0 <= m <= self.n,
                forall|k: int| 0 <= k < m ==> #[trigger] self.a@[k] == Some(s[k]),
                forall|k: int| m <= k < c ==> #[trigger] self.a@[k] is None,
                forall|k: int|
                    m <= k < self.n ==> #[trigger] b@[wrap_index(
                        self.j as int,
                        k,
                        oldcap as int,
                    )] == Some(s[k]),
            decreases self.n - m,
        {
            let q = wrapped(self.j, m, oldcap);
            let mut v: Option<T> = None;
            b.set_and_swap(q, &mut v);
            self.a.set(m, v);
            m += 1;
        }
        self.j = 0;
        self.moved = Ghost((self.moved@ + self.n) as nat);
        assert(self@ =~= s);
    }
}

impl<T: Clone> List<T> for Array<T> {
    open spec fn items(&self) -> Seq<T> {
        self@
    }

    open spec fn inv(&self) -> bool {
        self.well_formed()
    }

    fn size(&self) -> (r: usize) {
        self.n
    }

    /// `None` for an index at or past the end.
    fn get(&self, i: usize) -> (r: Option<T>)
        ensures
            i >= self@.len() ==> r is None,
    {
        if i < self.n {
            let q = wrapped(self.j, i, self.a.len());
            self.a[q].clone()
        } else {
            None
        }
    }

    /// For an index at or past the end, returns `None` and changes nothing.
    fn set(&mut self, i: usize, x: T) -> (r: Option<T>)
        ensures
            i >= old(self)@.len() ==> r is None && *final(self) == *old(self),
            final(self).cap() == old(self).cap(),
            final(self).add_count() == old(self).add_count(),
            final(self).remove_count() == old(self).remove_count(),
            final(self).resize_moves() == old(self).resize_moves(),
            old(self).amortized() ==> final(self).amortized(),
            i < old(self)@.len() ==> {
                &&& final(self).front() == old(self).front()
                &&& final(self).slots() == old(self).slots().update(old(self).slot_of(i as int), Some(x))
            },
    {
        if i < self.n {
            let q = wrapped(self.j, i, self.a.len());
            let mut v: Option<T> = Some(x);
            self.a.set_and_swap(q, &mut v);
            assert(self@ =~= old(self)@.update(i as int, x));
            v
        } else {
            None
        }
    }

    /// Grows the buffer to `2 n` slots first when it is full. Where it was not
    /// full, the elements on the far side of `i` keep their slots: for `i < n / 2`
    /// the front moves back one slot and the elements at `i` and after stay put;
    /// otherwise the front stays and the elements before `i` stay put.
    fn add(&mut self, i: usize, x: T)
        ensures
            old(self)@.len() < old(self).cap() ==> final(self).cap() == old(self).cap(),
            old(self)@.len() == old(self).cap() ==> final(self).cap() == 2 * old(self).cap(),
            old(self).balanced() ==> final(self).balanced(),
            final(self).add_count() == old(self).add_count() + 1,
            final(self).remove_count() == old(self).remove_count(),
            old(self).amortized() ==> final(self).amortized(),
            old(self)@.len() < old(self).cap() ==> if i < old(self)@.len() / 2 {
                &&& final(self).front() == if old(self).front() == 0 {
                    old(self).cap() - 1
                } else {
                    old(self).front() - 1
                }
                &&& forall|k: int|
                    i <= k < old(self)@.len() ==> #[trigger] final(self).slots()[old(self).slot_of(k)]
                        == old(self).slots()[old(self).slot_of(k)]
            } else {
                &&& final(self).front() == old(self).front()
                &&& forall|k: int|
                    0 <= k < i ==> #[trigger] final(self).slots()[old(self).slot_of(k)]
                        == old(self).slots()[old(self).slot_of(k)]
            },
    {
        if self.n + 1 > self.a.len() {
            self.resize();
            self.insert_at(i, x);
        } else {
            self.insert_at(i, x);
        }
    }

    /// Shrinks the buffer to `max(2 n, 1)` slots afterwards when `3 n < cap`.
    /// Where it does not shrink, the elements on the far side of `i` keep their slots: for
    /// `i < n / 2` the front moves on one slot and the elements after `i` stay
    /// put; otherwise the front stays and the elements before `i` stay put.
    fn remove(&mut self, i: usize)
        ensures
            final(self).balanced(),
            final(self).add_count() == old(self).add_count(),
            final(self).remove_count() == old(self).remove_count() + 1,
            final(self).cap() == if 3 * final(self)@.len() < old(self).cap() {
                if final(self)@.len() == 0 { 1 } else { 2 * final(self)@.len() }
            } else {
                old(self).cap()
            },
            old(self).amortized() ==> final(self).amortized(),
            3 * final(self)@.len() < old(self).cap() ==> final(self).front() == 0,
            3 * final(self)@.len() >= old(self).cap() ==> if i < old(self)@.len() / 2 {
                &&& final(self).front() == if old(self).front() + 1 == old(self).cap() {
                    0
                } else {
                    old(self).front() + 1
                }
                &&& forall|k: int|
                    i < k < old(self)@.len() ==> #[trigger] final(self).slots()[old(self).slot_of(k)]
                        == old(self).slots()[old(self).slot_of(k)]
            } else {
                &&& final(self).front() == old(self).front()
                &&& forall|k: int|
                    0 <= k < i ==> #[trigger] final(self).slots()[old(self).slot_of(k)]
                        == old(self).slots()[old(self).slot_of(k)]
            },
    {
        self.delete_at(i);
        let cap = self.a.len();
        if self.n <= usize::MAX / 3 && 3 * self.n < cap {
            self.resize();
        }
    }
}

/// The layout of a well-formed deque: at least one slot, the front inside the
/// buffer, at most `cap` elements, the slot of each logical index holding the
/// element at that index, and the `cap - n` slots after the last element empty.
pub proof fn lemma_layout<T>(a: Array<T>)
    requires
        a.well_formed(),
    ensures
        1 <= a.cap(),
        0 <= a.front() < a.cap(),
        a@.len() <= a.cap(),
        forall|k: int| 0 <= k < a@.len() ==> #[trigger] a.slots()[a.slot_of(k)] == Some(a@[k]),
        forall|k: int| a@.len() <= k < a.cap() ==> (#[trigger] a.slots()[a.slot_of(k)]) is None,
{
}

/// Over any run of insertions and removals from a new deque, the size is the
/// number of insertions minus the number of removals: `new` and `with_length`
/// start both counts at zero, and `add` and `remove` each count themselves.
pub proof fn lemma_size_is_net_inserts<T>(a: Array<T>)
    requires
        a.well_formed(),
    ensures
        a@.len() == a.add_count() - a.remove_count(),
{
}

/// The sequence fact behind reading back a write: `set(i, x)` leaves
/// `a@.update(i, x)`, and in that sequence index `i` holds `x`, so a following
/// `get(i)` returns a clone of `x`.
pub proof fn lemma_get_after_set<T>(a: Array<T>, i: usize, x: T)
    requires
        a.well_formed(),
        i < a@.len(),
    ensures
        a@.update(i as int, x).len() == a@.len(),
        a@.update(i as int, x)[i as int] == x,
{
}

/// The sequence fact behind undoing an insertion: `add(i, x)` leaves
/// `a@.insert(i, x)`, and removing index `i` from that sequence, which is
/// what `remove(i)` leaves, gives back `a@`.
pub proof fn lemma_add_then_remove<T>(a: Array<T>, i: usize, x: T)
    requires
        a.well_formed(),
        i <= a@.len(),
    ensures
        a@.insert(i as int, x).remove(i as int) == a@,
{
    assert(a@.insert(i as int, x).remove(i as int) =~= a@);
}

/// Over any run of insertions and removals from a new deque, whatever its
/// initial capacity, resizing copies at most two elements per operation.
pub proof fn lemma_resize_work_is_linear<T>(a: Array<T>)
    requires
        a.well_formed(),
        a.amortized(),
    ensures
        a.resize_moves() <= 2 * a.op_count(),
{
}

} // verus!
