//! The buffers of direct and asynchronous reads: sizes rounded up to whole blocks, and
//! the test payload written before a read.
use vstd::prelude::*;

verus! {

/// The block size that O_DIRECT buffers, lengths and offsets are aligned to.
pub const BLOCK: usize = 4096;

/// `len` rounded up to a whole number of blocks of `block` bytes.
pub fn aligned_len(len: usize, block: usize) -> (r: usize)
    requires
        block > 0,
        len + block - 1 <= usize::MAX,
    ensures
        r % block == 0,
        len <= r < len + block,
        r == (len + block - 1) / (block as int) * block,
{
    let q = (len + (block - 1)) / block;
    assert(q * block <= len + block - 1 && q * block + block > len + block - 1) by (nonlinear_arith)
        requires
            q == (len + block - 1) / (block as int),
            block > 0,
    ;
    assert((q * block) % (block as int) == 0) by (nonlinear_arith)
        requires
            block > 0,
    ;
    q * block
}

/// The test payload: byte `i` is `i % 251`.
pub fn demo_payload(n: usize) -> (r: Vec<u8>)
    ensures
        r@.len() == n,
        forall|i: int| 0 <= i < n ==> #[trigger] r@[i] == i % 251,
{
    let mut v: Vec<u8> = Vec::new();
    let mut i: usize = 0;
    while i < n
        invariant
            i <= n,
            v@.len() == i,
            forall|j: int| 0 <= j < i ==> #[trigger] v@[j] == j % 251,
        decreases n - i,
    {
        v.push((i % 251) as u8);
        i = i + 1;
    }
    v
}

} // verus!
