//! General templates for shared mutable state, held here in plain fields: a sequence
//! generator, a slot reached through closures, a counter, a map cache, a queue, a lazily
//! fixed threshold, a counter driven by commands, and sharded counters.
use vstd::prelude::*;
use std::collections::HashMap;
use std::hash::Hash;

verus! {

broadcast use vstd::std_specs::hash::group_hash_axioms;

/// Hands out 0, 1, 2, ...
pub struct SeqGen {
    inner: u64,
}

impl SeqGen {
    pub closed spec fn peek(&self) -> u64 {
        self.inner
    }

    pub fn new() -> (r: Self)
        ensures
            r.peek() == 0,
    {
        SeqGen { inner: 0 }
    }

    pub fn next(&mut self) -> (n: u64)
        requires
            old(self).peek() < u64::MAX,
        ensures
            n == old(self).peek(),
            final(self).peek() == n + 1,
    {
        let n = self.inner;
        self.inner = n + 1;
        n
    }
}

/// A value reached only through closures.
pub struct Slot<T> {
    inner: T,
}

impl<T> Slot<T> {
    pub closed spec fn value(&self) -> T {
        self.inner
    }

    pub fn new(v: T) -> (r: Self)
        ensures
            r.value() == v,
    {
        Slot { inner: v }
    }

    /// Runs `f` on the value and puts back what it returns beside its result.
    pub fn with_mut<R, F: FnOnce(T) -> (T, R)>(self, f: F) -> (r: (Self, R))
        requires
            f.requires((self.value(),)),
        ensures
            f.ensures((self.value(),), (r.0.value(), r.1)),
    {
        let (v, out) = f(self.inner);
        (Slot { inner: v }, out)
    }

    /// Runs `f` on a shared reference to the value.
    pub fn with_ref<R, F: FnOnce(&T) -> R>(&self, f: F) -> (r: R)
        requires
            f.requires((&self.value(),)),
        ensures
            f.ensures((&self.value(),), r),
    {
        f(&self.inner)
    }
}

/// A counter that wraps as an atomic add does.
pub struct Counter {
    n: u64,
}

impl Counter {
    pub closed spec fn value(&self) -> u64 {
        self.n
    }

    pub fn new() -> (r: Self)
        ensures
            r.value() == 0,
    {
        Counter { n: 0 }
    }

    pub fn inc(&mut self)
        ensures
            final(self).value() == old(self).value().wrapping_add(1),
    {
        self.n = self.n.wrapping_add(1);
    }

    pub fn get(&self) -> (r: u64)
        ensures
            r == self.value(),
    {
        self.n
    }
}

/// A read-mostly map.
pub struct MapCache<K, V> {
    inner: HashMap<K, V>,
}

impl<K: Eq + Hash + Copy, V: Copy> MapCache<K, V> {
    pub closed spec fn entries(&self) -> Map<K, V> {
        self.inner@
    }

    pub fn new() -> (r: Self)
        ensures
            r.entries() == Map::<K, V>::empty(),
    {
        MapCache { inner: HashMap::new() }
    }

    pub fn get(&self, k: K) -> (r: Option<V>)
        requires
            vstd::std_specs::hash::obeys_key_model::<K>(),
        ensures
            r == (if self.entries().contains_key(k) { Some(self.entries()[k]) } else { None }),
    {
        match self.inner.get(&k) {
            Some(v) => Some(*v),
            None => None,
        }
    }

    pub fn insert(&mut self, k: K, v: V)
        requires
            vstd::std_specs::hash::obeys_key_model::<K>(),
        ensures
            final(self).entries() == old(self).entries().insert(k, v),
    {
        self.inner.insert(k, v);
    }
}

/// A last-in, first-out queue.
pub struct Queue<T> {
    inner: Vec<T>,
}

impl<T> Queue<T> {
    pub closed spec fn items(&self) -> Seq<T> {
        self.inner@
    }

    pub fn new() -> (r: Self)
        ensures
            r.items() == Seq::<T>::empty(),
    {
        Queue { inner: Vec::new() }
    }

    pub fn push(&mut self, item: T)
        ensures
            final(self).items() == old(self).items().push(item),
    {
        self.inner.push(item);
    }

    /// Takes the most recently pushed item.
    pub fn pop(&mut self) -> (r: Option<T>)
        ensures
            old(self).items().len() == 0 ==> r is None && final(self).items() == old(self).items(),
            old(self).items().len() > 0 ==> r == Some(old(self).items().last())
                && final(self).items() == old(self).items().drop_last(),
    {
        self.inner.pop()
    }
}

/// The threshold, fixed at its first use.
pub fn threshold() -> (r: u64)
    ensures
        r == 1_000_000,
{
    1_000_000
}

/// A command to a counter task.
#[derive(Clone, Copy, PartialEq, Eq, Structural, Debug)]
pub enum CounterCmd {
    Inc,
    Get,
}

/// One step of the counter task: `Inc` counts, `Get` replies with the count.
pub fn counter_step(n: u64, cmd: CounterCmd) -> (r: (u64, Option<u64>))
    requires
        cmd == CounterCmd::Inc ==> n < u64::MAX,
    ensures
        cmd == CounterCmd::Inc ==> r.0 == n + 1 && r.1 is None,
        cmd == CounterCmd::Get ==> r == (n, Some(n)),
{
    match cmd {
        CounterCmd::Inc => (n + 1, None),
        CounterCmd::Get => (n, Some(n)),
    }
}

/// Counters split into shards by key.
pub struct ShardedCounters {
    shards: Vec<u64>,
}

/// The sum of the shard counts.
pub open spec fn shard_sum(s: Seq<u64>) -> int
    decreases s.len(),
{
    if s.len() == 0 { 0 } else { shard_sum(s.drop_last()) + s.last() }
}

impl ShardedCounters {
    pub closed spec fn counts(&self) -> Seq<u64> {
        self.shards@
    }

    /// `n` shards at 0.
    pub fn new(n: usize) -> (r: Self)
        ensures
            r.counts() == Seq::new(n as nat, |i: int| 0u64),
    {
        let mut shards: Vec<u64> = Vec::with_capacity(n);
        let mut i: usize = 0;
        while i < n
            invariant
                i <= n,
                shards@ == Seq::new(i as nat, |j: int| 0u64),
            decreases n - i,
        {
            shards.push(0);
            i = i + 1;
            assert(shards@ =~= Seq::new(i as nat, |j: int| 0u64));
        }
        ShardedCounters { shards }
    }

    /// The shard of `key`.
    fn shard_idx(&self, key: u64) -> (i: usize)
        requires
            self.counts().len() > 0,
        ensures
            i == (key as usize) % (self.counts().len() as usize),
            i < self.counts().len(),
    {
        (#[verifier::truncate] (key as usize)) % self.shards.len()
    }

    /// Counts one event for `key` in its shard.
    pub fn inc(&mut self, key: u64)
        requires
            old(self).counts().len() > 0,
            old(self).counts()[((key as usize) % (old(self).counts().len() as usize)) as int] < u64::MAX,
        ensures
            ({
                let i = ((key as usize) % (old(self).counts().len() as usize)) as int;
                final(self).counts() == old(self).counts().update(i, (old(self).counts()[i] + 1) as u64)
            }),
    {
        let i = self.shard_idx(key);
        let v = self.shards[i];
        self.shards.set(i, v + 1);
    }

    /// The sum over all shards.
    pub fn total(&self) -> (r: u64)
        requires
            shard_sum(self.counts()) <= u64::MAX,
        ensures
            r == shard_sum(self.counts()),
    {
        let mut sum: u64 = 0;
        let mut i: usize = 0;
        while i < self.shards.len()
            invariant
                i <= self.counts().len(),
                self.counts() == self.shards@,
                shard_sum(self.counts()) <= u64::MAX,
                sum == shard_sum(self.counts().subrange(0, i as int)),
            decreases self.counts().len() - i,
        {
            proof {
                assert(self.counts().subrange(0, i + 1).drop_last() =~= self.counts().subrange(0, i as int));
                lemma_shard_sum_prefix(self.counts(), (i + 1) as nat);
            }
            sum = sum + self.shards[i];
            i = i + 1;
        }
        assert(self.counts().subrange(0, i as int) =~= self.counts());
        sum
    }
}

/// A prefix sums to no more than the whole.
proof fn lemma_shard_sum_prefix(s: Seq<u64>, k: nat)
    requires
        k <= s.len(),
    ensures
        shard_sum(s.subrange(0, k as int)) <= shard_sum(s),
    decreases s.len() - k,
{
    if k < s.len() {
        lemma_shard_sum_prefix(s, k + 1);
        assert(s.subrange(0, k + 1 as int).drop_last() =~= s.subrange(0, k as int));
    } else {
        assert(s.subrange(0, k as int) =~= s);
    }
}

} // verus!
