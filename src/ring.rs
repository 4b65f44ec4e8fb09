use vstd::prelude::*;

verus! {

/// The buffer slot that lies `k` places after slot `j` in a circular buffer of
/// `cap` slots, that is `(j + k) mod cap`, for `0 <= j < cap` and `0 <= k < cap`.
pub open spec fn wrap_index(j: int, k: int, cap: int) -> int {
    if j + k < cap {
        j + k
    } else {
        j + k - cap
    }
}

/// `wrap_index` is the remainder of `j + k` by `cap` on the range where it is used.
pub proof fn lemma_wrap_index_is_mod(j: int, k: int, cap: int)
    requires
        0 <= j < cap,
        0 <= k < cap,
    ensures
        wrap_index(j, k, cap) == (j + k) % cap,
{
    if j + k < cap {
        vstd::arithmetic::div_mod::lemma_small_mod((j + k) as nat, cap as nat);
    } else {
        vstd::arithmetic::div_mod::lemma_mod_sub_multiples_vanish(j + k, cap);
        vstd::arithmetic::div_mod::lemma_small_mod((j + k - cap) as nat, cap as nat);
    }
}

/// Computes `wrap_index(j, k, cap)` without overflow.
pub(crate) fn wrapped(j: usize, k: usize, cap: usize) -> (r: usize)
    requires
        j < cap,
        k < cap,
    ensures
        r == wrap_index(j as int, k as int, cap as int),
{
    if k < cap - j {
        j + k
    } else {
        k - (cap - j)
    }
}

/// Moves the content of slot `from` into slot `to`, leaving `from` empty.
pub(crate) fn move_slot<T>(a: &mut Vec<Option<T>>, to: usize, from: usize)
    requires
        to < old(a)@.len(),
        from < old(a)@.len(),
        to != from,
    ensures
        final(a)@ == old(a)@.update(from as int, None).update(to as int, old(a)@[from as int]),
{
    let mut v: Option<T> = None;
    a.set_and_swap(from, &mut v);
    a.set(to, v);
}

/// A buffer of `size` empty slots.
pub(crate) fn empty_slots<T>(size: usize) -> (r: Vec<Option<T>>)
    ensures
        r@ == Seq::new(size as nat, |k: int| None::<T>),
{
    let mut r: Vec<Option<T>> = Vec::with_capacity(size);
    let mut k: usize = 0;
    while k < size
        invariant
            k <= size,
            r@ == Seq::new(k as nat, |m: int| None::<T>),
        decreases size - k,
    {
        r.push(None);
        k += 1;
    }
    r
}

} // verus!
