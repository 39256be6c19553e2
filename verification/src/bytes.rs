//! Little-endian integer framing shared by the decoders.
use vstd::prelude::*;

verus! {

/// `256^i` for `i >= 0`.
pub open spec fn pow256(i: int) -> int
    decreases i,
{
    if i <= 0 {
        1
    } else {
        256 * pow256(i - 1)
    }
}

/// Little-endian value of a byte sequence.
pub open spec fn le_value(s: Seq<u8>) -> nat
    decreases s.len(),
{
    if s.len() == 0 {
        0
    } else {
        s[0] as nat + 256 * le_value(s.drop_first())
    }
}

/// Big-endian value of a byte sequence.
pub open spec fn be_value(s: Seq<u8>) -> nat
    decreases s.len(),
{
    if s.len() == 0 {
        0
    } else {
        be_value(s.drop_last()) * 256 + s.last() as nat
    }
}

pub proof fn lemma_pow256_pos(i: int)
    ensures
        pow256(i) > 0,
    decreases i,
{
    if i > 0 {
        lemma_pow256_pos(i - 1);
    }
}

pub proof fn lemma_le_value_bound(s: Seq<u8>)
    ensures
        le_value(s) < pow256(s.len() as int),
    decreases s.len(),
{
    if s.len() > 0 {
        lemma_le_value_bound(s.drop_first());
    }
}

pub proof fn lemma_be_value_bound(s: Seq<u8>)
    ensures
        be_value(s) < pow256(s.len() as int),
    decreases s.len(),
{
    if s.len() > 0 {
        lemma_be_value_bound(s.drop_last());
        assert(be_value(s) <= (pow256(s.len() - 1) - 1) * 256 + 255) by (nonlinear_arith)
            requires
                be_value(s) == be_value(s.drop_last()) * 256 + s.last() as nat,
                be_value(s.drop_last()) < pow256(s.len() - 1),
                s.last() <= 255;
    }
}

/// Reads `n <= 8` bytes starting at `start` as a little-endian integer.
pub fn read_le(bytes: &[u8], start: usize, n: usize) -> (v: u64)
    requires
        n <= 8,
        start + n <= bytes@.len(),
    ensures
        v == le_value(bytes@.subrange(start as int, start + n)),
{
    let len = bytes.len();
    let mut v: u64 = 0;
    let mut k: usize = n;
    while k > 0
        invariant
            len == bytes@.len(),
            k <= n <= 8,
            start + n <= bytes@.len(),
            v == le_value(bytes@.subrange(start + k, start + n)),
        decreases k,
    {
        let ghost tail = bytes@.subrange(start + k, start + n);
        let ghost s2 = bytes@.subrange(start + k - 1, start + n);
        proof {
            assert(s2.drop_first() == tail);
            lemma_le_value_bound(tail);
            lemma_pow256_small();
            lemma_pow256_mono((n - k) as int, 7);
            assert(tail.len() == n - k);
            assert(v < 72057594037927936);
        }
        v = v * 256 + bytes[start + k - 1] as u64;
        k = k - 1;
    }
    v
}

pub proof fn lemma_pow256_small()
    ensures
        pow256(0) == 1,
        pow256(1) == 256,
        pow256(2) == 65536,
        pow256(3) == 16777216,
        pow256(4) == 4294967296,
        pow256(5) == 1099511627776,
        pow256(6) == 281474976710656,
        pow256(7) == 72057594037927936,
        pow256(8) == 18446744073709551616,
{
    assert(pow256(0) == 1);
    assert(pow256(1) == 256);
    assert(pow256(2) == 65536);
    assert(pow256(3) == 16777216);
    assert(pow256(4) == 4294967296);
    assert(pow256(5) == 1099511627776);
    assert(pow256(6) == 281474976710656);
    assert(pow256(7) == 72057594037927936);
    assert(pow256(8) == 18446744073709551616);
}

pub proof fn lemma_pow256_mono(a: int, b: int)
    requires
        0 <= a <= b,
    ensures
        pow256(a) <= pow256(b),
    decreases b - a,
{
    if a < b {
        lemma_pow256_mono(a, b - 1);
        lemma_pow256_pos(b - 1);
    }
}

/// Reads `n <= 8` bytes starting at `start` as a big-endian integer.
pub fn read_be(bytes: &[u8], start: usize, n: usize) -> (v: u64)
    requires
        n <= 8,
        start + n <= bytes@.len(),
    ensures
        v == be_value(bytes@.subrange(start as int, start + n)),
{
    let len = bytes.len();
    let mut v: u64 = 0;
    let mut k: usize = 0;
    while k < n
        invariant
            len == bytes@.len(),
            k <= n <= 8,
            start + n <= bytes@.len(),
            v == be_value(bytes@.subrange(start as int, start + k)),
        decreases n - k,
    {
        let ghost pre = bytes@.subrange(start as int, start + k);
        proof {
            assert(bytes@.subrange(start as int, start + k + 1).drop_last() == pre);
            lemma_be_value_bound(pre);
            lemma_pow256_small();
            lemma_pow256_mono(k as int, 7);
            assert(pre.len() == k);
            assert(v < 72057594037927936);
        }
        v = v * 256 + bytes[start + k] as u64;
        k = k + 1;
    }
    v
}

/// Compares two byte arrays of the same length.
pub fn arr_eq<const N: usize>(a: &[u8; N], b: &[u8; N]) -> (r: bool)
    ensures
        r == (a@ == b@),
{
    let mut i: usize = 0;
    while i < N
        invariant
            i <= N,
            a@.len() == N,
            b@.len() == N,
            forall|k: int| 0 <= k < i ==> a@[k] == b@[k],
        decreases N - i,
    {
        if a[i] != b[i] {
            return false;
        }
        i = i + 1;
    }
    assert(a@ =~= b@);
    true
}

/// The 16 bytes at `start`, big-endian.
pub fn read_be_u128(data: &[u8], start: usize) -> (v: u128)
    requires
        start + 16 <= data@.len(),
    ensures
        v == be_value(data@.subrange(start as int, start + 16)),
{
    let mut v: u128 = 0;
    let n = data.len();
    assert(start + 16 <= n);
    let end = start + 16;
    let mut k: usize = start;
    while k < end
        invariant
            end == start + 16,
            start <= k <= start + 16,
            start + 16 <= data@.len(),
            v == be_value(data@.subrange(start as int, k as int)),
        decreases start + 16 - k,
    {
        proof {
            lemma_be_value_bound(data@.subrange(start as int, k as int));
            lemma_pow256_mono(k - start, 15);
            lemma_pow256_small();
            assert(pow256(9) == 256 * pow256(8));
            assert(pow256(10) == 256 * pow256(9));
            assert(pow256(11) == 256 * pow256(10));
            assert(pow256(12) == 256 * pow256(11));
            assert(pow256(13) == 256 * pow256(12));
            assert(pow256(14) == 256 * pow256(13));
            assert(pow256(15) == 256 * pow256(14));
            assert(pow256(15) == 0x100_0000_0000_0000_0000_0000_0000_0000);
            assert(data@.subrange(start as int, k + 1).drop_last() =~= data@.subrange(start as int, k as int));
        }
        v = v * 256 + data[k] as u128;
        k = k + 1;
    }
    v
}



/// The 32 bytes at `start`.
pub fn take32(s: &[u8], start: usize) -> (r: [u8; 32])
    requires
        start + 32 <= s@.len(),
    ensures
        r@ == s@.subrange(start as int, start + 32),
{
    let mut a = [0u8; 32];
    let mut k: usize = 0;
    while k < 32
        invariant
            k <= 32,
            a@.len() == 32,
            start + 32 <= s.len(),
            forall|m: int| 0 <= m < k ==> #[trigger] a@[m] == s@[start + m],
        decreases 32 - k,
    {
        a[k] = s[start + k];
        k = k + 1;
    }
    assert(a@ =~= s@.subrange(start as int, start + 32));
    a
}

/// The 20 bytes at `start`.
pub fn take20(s: &[u8], start: usize) -> (r: [u8; 20])
    requires
        start + 20 <= s@.len(),
    ensures
        r@ == s@.subrange(start as int, start + 20),
{
    let mut a = [0u8; 20];
    let mut k: usize = 0;
    while k < 20
        invariant
            k <= 20,
            a@.len() == 20,
            start + 20 <= s.len(),
            forall|m: int| 0 <= m < k ==> #[trigger] a@[m] == s@[start + m],
        decreases 20 - k,
    {
        a[k] = s[start + k];
        k = k + 1;
    }
    assert(a@ =~= s@.subrange(start as int, start + 20));
    a
}

/// The first position at or after `start` that holds `sep`, or the length.
pub open spec fn sep_at(s: Seq<u8>, sep: u8, start: nat) -> nat
    decreases s.len() - start,
{
    if start >= s.len() {
        s.len()
    } else if s[start as int] == sep {
        start
    } else {
        sep_at(s, sep, start + 1)
    }
}

/// The pieces of `s` from `start` on, split at every `sep`: `n` separators give `n + 1`
/// pieces, empty ones included.
pub open spec fn pieces_from(s: Seq<u8>, sep: u8, start: nat) -> Seq<Seq<u8>>
    decreases s.len() - start,
{
    let e = sep_at(s, sep, start);
    if start > s.len() || e >= s.len() {
        seq![s.subrange(start as int, s.len() as int)]
    } else {
        proof {
            lemma_sep_at(s, sep, start);
        }
        seq![s.subrange(start as int, e as int)] + pieces_from(s, sep, e + 1)
    }
}

pub proof fn lemma_sep_at(s: Seq<u8>, sep: u8, start: nat)
    requires
        start <= s.len(),
    ensures
        start <= sep_at(s, sep, start) <= s.len(),
        sep_at(s, sep, start) < s.len() ==> s[sep_at(s, sep, start) as int] == sep,
        forall|j: int| start <= j < sep_at(s, sep, start) ==> s[j] != sep,
    decreases s.len() - start,
{
    if start < s.len() && s[start as int] != sep {
        lemma_sep_at(s, sep, start + 1);
    }
}

/// The first `sep` at or after `start`, or the length.
pub fn find_sep(s: &[u8], sep: u8, start: usize) -> (e: usize)
    requires
        start <= s@.len(),
    ensures
        e == sep_at(s@, sep, start as nat),
{
    let mut e = start;
    while e < s.len() && s[e] != sep
        invariant
            start <= e <= s@.len(),
            sep_at(s@, sep, e as nat) == sep_at(s@, sep, start as nat),
        decreases s@.len() - e,
    {
        e = e + 1;
    }
    e
}

} // verus!
