//! Scratch that the vendor borrows for one call only.
use vstd::prelude::*;

verus! {

/// The first `n` words of the scratch, lent for the length of one call.
pub fn borrow_for_one_call(scratch: &mut [u64], n: usize) -> (r: &[u64])
    requires
        n <= old(scratch)@.len(),
    ensures
        r@ == old(scratch)@.subrange(0, n as int),
        final(scratch)@ == old(scratch)@,
{
    let s: &[u64] = scratch;
    vstd::slice::slice_subrange(s, 0, n)
}

} // verus!
