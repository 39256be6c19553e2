//! Generic building blocks: monomorphised comparison, sorted merge, encoders with a
//! fixed output, a fixed-capacity ring buffer and unit-branded prices.
use std::marker::PhantomData;
use vstd::prelude::*;
use vstd::seq_lib::*;
use core::cmp::Ordering;
use vstd::std_specs::cmp::PartialOrdSpec;
use vstd::string::StringSliceAdditionalSpecFns;

verus! {

broadcast use vstd::seq_lib::group_to_multiset_ensures;

/// The larger of two values; on a tie the first one is returned.
pub fn max<T: Ord>(a: T, b: T) -> (r: T)
    ensures
        r == a || r == b,
        T::obeys_partial_cmp_spec() ==> (r == (if a.partial_cmp_spec(&b) matches Some(
            Ordering::Greater
            | Ordering::Equal,
        ) {
            a
        } else {
            b
        })),
{
    if a >= b {
        a
    } else {
        b
    }
}

/// A sequence is sorted in non-decreasing order.
pub open spec fn sorted_i64(s: Seq<i64>) -> bool {
    forall|i: int, j: int| 0 <= i <= j < s.len() ==> s[i] <= s[j]
}

/// Inserts `x` into the sorted vector `v`, after every element not greater than it.
fn insert_sorted(v: &mut Vec<i64>, x: i64)
    requires
        sorted_i64(old(v)@),
    ensures
        sorted_i64(final(v)@),
        final(v)@.to_multiset() == old(v)@.to_multiset().insert(x),
{
    let mut p: usize = 0;
    while p < v.len() && v[p] <= x
        invariant
            p <= v.len(),
            forall|k: int| 0 <= k < p ==> v@[k] <= x,
        decreases v.len() - p,
    {
        p = p + 1;
    }
    proof {
        to_multiset_insert(v@, p as int, x);
    }
    v.insert(p, x);
}

/// Concatenates both inputs and returns them sorted in non-decreasing order.
pub fn merge_sorted(a: Vec<i64>, b: Vec<i64>) -> (out: Vec<i64>)
    ensures
        sorted_i64(out@),
        out@.to_multiset() == (a@ + b@).to_multiset(),
{
    let all = {
        let mut all = a;
        let mut bb = b;
        all.append(&mut bb);
        all
    };
    let mut out: Vec<i64> = Vec::new();
    let mut i: usize = 0;
    while i < all.len()
        invariant
            i <= all.len(),
            all@ == a@ + b@,
            sorted_i64(out@),
            out@.to_multiset() == all@.subrange(0, i as int).to_multiset(),
        decreases all.len() - i,
    {
        insert_sorted(&mut out, all[i]);
        proof {
            assert(all@.subrange(0, i + 1) == all@.subrange(0, i as int).push(all@[i as int]));
        }
        i = i + 1;
    }
    proof {
        assert(all@.subrange(0, all@.len() as int) == all@);
    }
    out
}

/// A value with a fixed wire encoding.
pub trait Encoder {
    /// The bytes this value encodes to.
    spec fn encoded(&self) -> Seq<u8>;

    fn encode(&self) -> (r: Vec<u8>)
        ensures
            r@ == self.encoded(),
    ;
}

/// A `u64` encoded as eight little-endian bytes.
pub struct U64Le(pub u64);

/// The eight little-endian bytes of `x`.
pub open spec fn le_bytes_u64(x: u64) -> Seq<u8> {
    Seq::new(8, |i: int| ((x as int / pow256(i)) % 256) as u8)
}

/// `256^i` for a small exponent.
pub open spec fn pow256(i: int) -> int
    decreases i,
{
    if i <= 0 {
        1
    } else {
        256 * pow256(i - 1)
    }
}

impl Encoder for U64Le {
    open spec fn encoded(&self) -> Seq<u8> {
        le_bytes_u64(self.0)
    }

    fn encode(&self) -> (r: Vec<u8>) {
        let mut out: Vec<u8> = Vec::new();
        let mut x: u64 = self.0;
        let mut i: usize = 0;
        while i < 8
            invariant
                i <= 8,
                out@.len() == i,
                x as int == self.0 as int / pow256(i as int),
                forall|k: int| 0 <= k < i ==> out@[k] == ((self.0 as int / pow256(k)) % 256) as u8,
            decreases 8 - i,
        {
            proof {
                lemma_pow256_pos(i as int);
                lemma_div_div(self.0 as int, pow256(i as int), 256);
            }
            out.push((x % 256) as u8);
            x = x / 256;
            i = i + 1;
        }
        proof {
            assert(out@ == le_bytes_u64(self.0));
        }
        out
    }
}

proof fn lemma_pow256_pos(i: int)
    ensures
        pow256(i) > 0,
    decreases i,
{
    if i > 0 {
        lemma_pow256_pos(i - 1);
    }
}

proof fn lemma_div_div(x: int, a: int, b: int)
    requires
        x >= 0,
        a > 0,
        b > 0,
    ensures
        x / a / b == x / (b * a),
{
    vstd::arithmetic::div_mod::lemma_div_denominator(x, a, b);
    vstd::arithmetic::mul::lemma_mul_is_commutative(a, b);
}

/// A static ASCII tag written as its raw bytes.
pub struct AsciiTag(pub &'static str);

impl Encoder for AsciiTag {
    open spec fn encoded(&self) -> Seq<u8> {
        self.0.spec_bytes()
    }

    fn encode(&self) -> (r: Vec<u8>) {
        let b = self.0.as_bytes();
        let mut out: Vec<u8> = Vec::new();
        let mut i: usize = 0;
        while i < b.len()
            invariant
                i <= b@.len(),
                out@ == b@.subrange(0, i as int),
            decreases b@.len() - i,
        {
            out.push(b[i]);
            i = i + 1;
            proof {
                assert(out@ == b@.subrange(0, i as int));
            }
        }
        out
    }
}

/// Number of bytes the encoder puts on the wire.
pub fn wire_len<E: Encoder>(e: &E) -> (n: usize)
    ensures
        n == e.encoded().len(),
{
    e.encode().len()
}

/// A ring buffer of fixed capacity `N` that evicts its oldest element when full.
pub struct RingBuf<T, const N: usize> {
    data: Vec<Option<T>>,
    head: usize,
    len: usize,
}

/// Position of the `i`-th element of a window that starts at `h` in a ring of `n` slots.
pub open spec fn ring_slot(h: int, i: int, n: int) -> int {
    if h + i < n {
        h + i
    } else {
        h + i - n
    }
}

impl<T, const N: usize> RingBuf<T, N> {
    /// Internal consistency: `N` slots, and the `len` slots from `head` on are occupied.
    pub closed spec fn wf(&self) -> bool {
        &&& self.data@.len() == N
        &&& self.len <= N
        &&& (N > 0 ==> self.head < N)
        &&& (N == 0 ==> self.head == 0)
        &&& forall|i: int| 0 <= i < self.len ==> (#[trigger] self.data@[ring_slot(self.head as int, i, N as int)]) is Some
    }

    /// The buffered elements, oldest first.
    pub closed spec fn view(&self) -> Seq<T> {
        Seq::new(self.len as nat, |i: int| self.data@[ring_slot(self.head as int, i, N as int)]->Some_0)
    }

    pub fn new() -> (r: Self)
        ensures
            r.wf(),
            r.view() == Seq::<T>::empty(),
    {
        let mut data: Vec<Option<T>> = Vec::new();
        let mut i: usize = 0;
        while i < N
            invariant
                i <= N,
                data@.len() == i,
            decreases N - i,
        {
            data.push(None);
            i = i + 1;
        }
        let r = RingBuf { data, head: 0, len: 0 };
        proof {
            assert(r.view() =~= Seq::<T>::empty());
        }
        r
    }

    /// Appends `v`; when the buffer is full the oldest element is evicted and returned.
    pub fn push(&mut self, v: T) -> (evicted: Option<T>)
        requires
            old(self).wf(),
            N > 0,
        ensures
            final(self).wf(),
            old(self).view().len() < N ==> evicted is None && final(self).view() == old(self).view().push(v),
            old(self).view().len() == N ==> evicted == Some(old(self).view()[0])
                && final(self).view() == old(self).view().drop_first().push(v),
    {
        let ghost old_view = self.view();
        let ghost old_data = self.data@;
        let ghost old_head = self.head as int;
        let n = N;
        let idx = if self.head < n - self.len { self.head + self.len } else { self.head - (n - self.len) };
        assert(idx == ring_slot(old_head, self.len as int, n as int));
        let evicted = if self.len == n {
            assert(old_data[ring_slot(old_head, 0, n as int)] is Some);
            let old = self.data[self.head].take();
            self.head = if self.head + 1 < n { self.head + 1 } else { 0 };
            old
        } else {
            self.len = self.len + 1;
            None
        };
        self.data.set(idx, Some(v));
        proof {
            let nn = N as int;
            if old_view.len() < nn {
                assert forall|i: int| 0 <= i < old_view.len() implies
                    ring_slot(old_head, i, nn) != idx as int by {}
                assert(self.view() =~= old_view.push(v));
                assert forall|i: int| 0 <= i < self.len implies
                    (#[trigger] self.data@[ring_slot(self.head as int, i, nn)]) is Some by {
                    if i < old_view.len() {
                        assert(old_data[ring_slot(old_head, i, nn)] is Some);
                    }
                }
            } else {
                assert forall|i: int| 0 <= i < nn - 1 implies
                    ring_slot(self.head as int, i, nn) == ring_slot(old_head, i + 1, nn)
                    && ring_slot(old_head, i + 1, nn) != old_head by {}
                assert(ring_slot(self.head as int, nn - 1, nn) == old_head);
                assert(idx as int == old_head);
                assert(self.view() =~= old_view.drop_first().push(v)) by {
                    assert forall|i: int| 0 <= i < nn - 1 implies
                        self.view()[i] == old_view[i + 1] by {
                        assert(ring_slot(self.head as int, i, nn) == ring_slot(old_head, i + 1, nn));
                    }
                }
                assert forall|i: int| 0 <= i < self.len implies
                    (#[trigger] self.data@[ring_slot(self.head as int, i, nn)]) is Some by {
                    if i < nn - 1 {
                        assert(old_data[ring_slot(old_head, i + 1, nn)] is Some);
                    }
                }
            }
        }
        evicted
    }

    pub fn len(&self) -> (n: usize)
        requires
            self.wf(),
        ensures
            n == self.view().len(),
    {
        self.len
    }
}

/// A price in ticks, branded with its unit so that different units never mix.
pub struct Price<Unit> {
    ticks: i64,
    _unit: PhantomData<Unit>,
}

/// Unit: US cents.
pub struct UsdCents;

/// Unit: basis points.
pub struct Bps;

impl<Unit> Price<Unit> {
    pub closed spec fn view(&self) -> i64 {
        self.ticks
    }

    pub fn new(ticks: i64) -> (r: Self)
        ensures
            r.view() == ticks,
    {
        Price { ticks, _unit: PhantomData }
    }

    pub fn ticks(&self) -> (t: i64)
        ensures
            t == self.view(),
    {
        self.ticks
    }
}

/// Sum of two prices of the same unit.
pub fn add_same_unit<Unit>(a: Price<Unit>, b: Price<Unit>) -> (r: Price<Unit>)
    requires
        i64::MIN <= a.view() + b.view() <= i64::MAX,
    ensures
        r.view() == a.view() + b.view(),
{
    Price::new(a.ticks() + b.ticks())
}

/// The contents of a ring of capacity `n` after pushing `vals` in order into an empty
/// one: a push appends, evicting the oldest element when the ring is full.
pub open spec fn ring_after<T>(n: nat, vals: Seq<T>) -> Seq<T>
    decreases vals.len(),
{
    if vals.len() == 0 {
        Seq::empty()
    } else {
        let prev = ring_after(n, vals.drop_last());
        if prev.len() < n {
            prev.push(vals.last())
        } else {
            prev.drop_first().push(vals.last())
        }
    }
}

/// A ring of capacity `n > 0` holds the last `min(k, n)` of the `k` values pushed, in
/// the order they were pushed.
pub proof fn lemma_ring_after<T>(n: nat, vals: Seq<T>)
    requires
        n > 0,
    ensures
        ring_after(n, vals) == vals.subrange(if vals.len() > n { vals.len() - n } else { 0 }, vals.len() as int),
        ring_after(n, vals).len() == if vals.len() > n { n } else { vals.len() },
    decreases vals.len(),
{
    if vals.len() > 0 {
        let init = vals.drop_last();
        lemma_ring_after(n, init);
        let k = vals.len();
        if init.len() < n {
            assert(ring_after(n, vals) =~= vals.subrange(0, k as int));
        } else {
            assert(ring_after(n, vals) =~= vals.subrange(k - n, k as int));
        }
    }
}

} // verus!
