//! Splitting a mutable slice into two disjoint halves.
use vstd::prelude::*;

verus! {

/// The elements before `mid` and those from `mid` on, as two mutable slices;
/// what is written through them is what the slice holds afterwards.
pub fn split_at_mut<T>(v: &mut [T], mid: usize) -> (halves: (&mut [T], &mut [T]))
    requires
        mid <= old(v)@.len(),
    ensures
        halves.0@ == old(v)@.subrange(0, mid as int),
        halves.1@ == old(v)@.subrange(mid as int, old(v)@.len() as int),
        final(v)@ == final(halves.0)@ + final(halves.1)@,
{
    let (first, second) = v.split_at_mut(mid);
    (first, second)
}

} // verus!
