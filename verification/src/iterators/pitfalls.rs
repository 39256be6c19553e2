//! Iterator pitfalls: a hidden intermediate allocation, and an unbounded collect next
//! to a bounded one.
use vstd::prelude::*;
use crate::iterators::basics::{doubled_sum_above_100, sums_fit};

verus! {

/// Twice the sum of the prices above 100, collecting the filtered prices first.
pub fn slow(prices: &[u64]) -> (r: u64)
    requires
        sums_fit(prices@),
    ensures
        r == doubled_sum_above_100(prices@),
{
    let mut filtered: Vec<u64> = Vec::new();
    let ghost mut src: Seq<u64> = Seq::empty();
    let mut i: usize = 0;
    let mut sum: u64 = 0;
    while i < prices.len()
        invariant
            i <= prices@.len(),
            sums_fit(prices@),
            sum == doubled_sum_above_100(prices@.subrange(0, i as int)),
            forall|j: int| 0 <= j < filtered@.len() ==> #[trigger] filtered@[j] > 100,
        decreases prices@.len() - i,
    {
        proof {
            assert(prices@.subrange(0, i + 1).drop_last() =~= prices@.subrange(0, i as int));
            assert(doubled_sum_above_100(prices@.subrange(0, i + 1)) <= u64::MAX);
        }
        let p = prices[i];
        if p > 100 {
            filtered.push(p);
            sum = sum + p * 2;
        }
        i = i + 1;
    }
    assert(prices@.subrange(0, prices@.len() as int) =~= prices@);
    sum
}

/// Twice the sum of the prices above 100, in one pass.
pub fn fast(prices: &[u64]) -> (r: u64)
    requires
        sums_fit(prices@),
    ensures
        r == doubled_sum_above_100(prices@),
{
    crate::iterators::basics::iterator_chain(prices)
}

/// Every number below `user_n`, however many that is.
pub fn dangerous(user_n: u64) -> (r: Vec<u64>)
    requires
        user_n <= usize::MAX,
    ensures
        r@.len() == user_n,
        forall|i: int| 0 <= i < user_n ==> #[trigger] r@[i] == i,
{
    let mut out: Vec<u64> = Vec::new();
    let mut i: u64 = 0;
    while i < user_n
        invariant
            i <= user_n,
            out@.len() == i,
            forall|j: int| 0 <= j < i ==> #[trigger] out@[j] == j,
        decreases user_n - i,
    {
        out.push(i);
        i = i + 1;
    }
    out
}

/// The most results a request gets.
pub const MAX_RESULTS: usize = 10_000;

/// The numbers below `user_n`, at most `MAX_RESULTS` of them.
pub fn safe(user_n: u64) -> (r: Vec<u64>)
    ensures
        r@.len() == (if user_n < MAX_RESULTS { user_n as nat } else { MAX_RESULTS as nat }),
        forall|i: int| 0 <= i < r@.len() ==> #[trigger] r@[i] == i,
{
    let cap: u64 = if user_n < 10_000 { user_n } else { 10_000 };
    let mut out: Vec<u64> = Vec::with_capacity(cap as usize);
    let mut i: u64 = 0;
    while i < cap
        invariant
            i <= cap,
            cap <= 10_000,
            out@.len() == i,
            forall|j: int| 0 <= j < i ==> #[trigger] out@[j] == j,
        decreases cap - i,
    {
        out.push(i);
        i = i + 1;
    }
    out
}

} // verus!
