use vstd::prelude::*;

verus! {

/// An indexable sequence that supports insertion and removal at any position.
///
/// `items` is the logical content, front to back; `inv` is the implementor's
/// well-formedness condition, which every operation preserves.
pub trait List<T: Clone>: Sized {
    spec fn items(&self) -> Seq<T>;

    spec fn inv(&self) -> bool;

    /// The number of elements.
    fn size(&self) -> (r: usize)
        requires
            self.inv(),
        ensures
            r == self.items().len(),
    ;

    /// A clone of the element at logical index `i`, when `i` is in range.
    fn get(&self, i: usize) -> (r: Option<T>)
        requires
            self.inv(),
        ensures
            i < self.items().len() ==> r is Some && cloned(self.items()[i as int], r->0),
    ;

    /// Overwrites the element at logical index `i` with `x` and returns the
    /// element it held.
    fn set(&mut self, i: usize, x: T) -> (r: Option<T>)
        requires
            old(self).inv(),
        ensures
            final(self).inv(),
            i < old(self).items().len() ==> {
                &&& final(self).items() == old(self).items().update(i as int, x)
                &&& r == Some(old(self).items()[i as int])
            },
    ;

    /// Inserts `x` at logical index `i`, moving the elements from `i` on one
    /// place towards the back.
    fn add(&mut self, i: usize, x: T)
        requires
            old(self).inv(),
            i <= old(self).items().len(),
            old(self).items().len() < usize::MAX / 2,
        ensures
            final(self).inv(),
            final(self).items() == old(self).items().insert(i as int, x),
    ;

    /// Removes the element at logical index `i`, moving the elements after it
    /// one place towards the front.
    fn remove(&mut self, i: usize)
        requires
            old(self).inv(),
            i < old(self).items().len(),
        ensures
            final(self).inv(),
            final(self).items() == old(self).items().remove(i as int),
    ;
}

} // verus!
