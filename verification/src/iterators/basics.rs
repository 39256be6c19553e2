//! Iterator fundamentals: a Fibonacci state machine that stops before it overflows, and
//! a filter-map-sum written as a loop and as a chain.
use vstd::prelude::*;

verus! {

/// The Fibonacci numbers, `fib(0) == 0`, `fib(1) == 1`.
pub open spec fn fib(n: nat) -> nat
    decreases n,
{
    if n == 0 {
        0
    } else if n == 1 {
        1
    } else {
        fib((n - 2) as nat) + fib((n - 1) as nat)
    }
}

/// Yields Fibonacci numbers until the next one would not fit in a `u64`.
pub struct Fib {
    a: u64,
    b: u64,
}

impl Fib {
    /// The pair `(a, b)` of the state.
    pub closed spec fn state(&self) -> (u64, u64) {
        (self.a, self.b)
    }

    pub fn new() -> (r: Self)
        ensures
            r.state() == (0u64, 1u64),
    {
        Fib { a: 0, b: 1 }
    }

    /// Yields `a` and steps to `(b, a + b)`; once `a + b` overflows it yields `None`
    /// and keeps its state, so it stays finished.
    pub fn next(&mut self) -> (r: Option<u64>)
        ensures
            old(self).state().0 + old(self).state().1 <= u64::MAX ==> r == Some(old(self).state().0)
                && final(self).state() == (old(self).state().1, (old(self).state().0 + old(self).state().1) as u64),
            old(self).state().0 + old(self).state().1 > u64::MAX ==> r is None && final(self).state() == old(self).state(),
    {
        let cur = self.a;
        let next = match self.a.checked_add(self.b) {
            Some(n) => n,
            None => {
                return None;
            },
        };
        self.a = self.b;
        self.b = next;
        Some(cur)
    }
}

/// Twice the sum of the prices above 100.
pub open spec fn doubled_sum_above_100(s: Seq<u64>) -> int
    decreases s.len(),
{
    if s.len() == 0 {
        0
    } else {
        doubled_sum_above_100(s.drop_last()) + if s.last() > 100 { 2 * s.last() } else { 0 }
    }
}

/// Every running sum fits in a `u64`.
pub open spec fn sums_fit(s: Seq<u64>) -> bool {
    forall|k: int| 0 <= k <= s.len() ==> #[trigger] doubled_sum_above_100(s.subrange(0, k)) <= u64::MAX
}

/// Twice the sum of the prices above 100, with a plain loop.
pub fn handwritten_loop(prices: &[u64]) -> (r: u64)
    requires
        sums_fit(prices@),
    ensures
        r == doubled_sum_above_100(prices@),
{
    let mut sum: u64 = 0;
    let mut i: usize = 0;
    while i < prices.len()
        invariant
            i <= prices@.len(),
            sums_fit(prices@),
            sum == doubled_sum_above_100(prices@.subrange(0, i as int)),
        decreases prices@.len() - i,
    {
        let p = prices[i];
        proof {
            assert(prices@.subrange(0, i + 1).drop_last() =~= prices@.subrange(0, i as int));
            assert(doubled_sum_above_100(prices@.subrange(0, i + 1)) <= u64::MAX);
        }
        if p > 100 {
            sum = sum + p * 2;
        }
        i = i + 1;
    }
    assert(prices@.subrange(0, prices@.len() as int) =~= prices@);
    sum
}

/// Twice the sum of the prices above 100, as a filter, a map and a sum.
pub fn iterator_chain(prices: &[u64]) -> (r: u64)
    requires
        sums_fit(prices@),
    ensures
        r == doubled_sum_above_100(prices@),
{
    let mut sum: u64 = 0;
    for i in 0..prices.len()
        invariant
            sums_fit(prices@),
            sum == doubled_sum_above_100(prices@.subrange(0, i as int)),
    {
        proof {
            assert(prices@.subrange(0, i + 1).drop_last() =~= prices@.subrange(0, i as int));
            assert(doubled_sum_above_100(prices@.subrange(0, i + 1)) <= u64::MAX);
        }
        let p = prices[i];
        let mapped: u64 = if p > 100 { p * 2 } else { 0 };
        sum = sum + mapped;
    }
    assert(prices@.subrange(0, prices@.len() as int) =~= prices@);
    sum
}

/// The loop and the chain agree on every input they accept.
pub proof fn lemma_loop_matches_chain(prices: Seq<u64>, a: u64, b: u64)
    requires
        a == doubled_sum_above_100(prices),
        b == doubled_sum_above_100(prices),
    ensures
        a == b,
{
}

} // verus!
