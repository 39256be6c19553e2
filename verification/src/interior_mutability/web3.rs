//! Blockchain client state that the original shares behind cells, atomics and locks: a
//! mempool dedup set, a nonce tracker, a decoder table, an unconfirmed block buffer, a
//! gas oracle and a signing pool. Held here in plain fields behind `&mut self`.
use vstd::prelude::*;
use crate::bytes::arr_eq;
use crate::assoc::{lookup_spec, upsert_spec, lemma_first_key_index_spec};
use crate::inline_caching::strategies::{first_key_index, lemma_first_key_index};

verus! {

pub type TxHash = [u8; 32];

pub type Address = [u8; 20];

pub type BlockNum = u64;

/// Transaction hashes already seen, forgotten all at once when full.
pub struct SeenCache {
    seen: Vec<TxHash>,
    cap: usize,
    pub hits: u64,
    pub inserts: u64,
}

impl SeenCache {
    /// The hashes remembered.
    pub closed spec fn seen_set(&self) -> Set<TxHash> {
        self.seen@.to_set()
    }

    pub closed spec fn size(&self) -> nat {
        self.seen@.len()
    }

    pub closed spec fn capacity(&self) -> usize {
        self.cap
    }

    pub closed spec fn hit_count(&self) -> u64 {
        self.hits
    }

    pub closed spec fn insert_count(&self) -> u64 {
        self.inserts
    }

    pub closed spec fn wf(&self) -> bool {
        self.seen@.no_duplicates()
    }

    pub fn new(cap: usize) -> (r: Self)
        ensures
            r.wf(),
            r.seen_set() == Set::<TxHash>::empty(),
            r.size() == 0,
            r.capacity() == cap,
            r.hit_count() == 0 && r.insert_count() == 0,
    {
        let r = SeenCache { seen: Vec::new(), cap, hits: 0, inserts: 0 };
        assert(r.seen@.to_set() =~= Set::<TxHash>::empty());
        r
    }

    /// Remembers `hash`; returns false for a hash already seen. A full cache forgets
    /// everything before remembering the new hash.
    pub fn check_and_insert(&mut self, hash: TxHash) -> (fresh: bool)
        requires
            old(self).wf(),
            old(self).hit_count() < u64::MAX,
            old(self).insert_count() < u64::MAX,
        ensures
            final(self).wf(),
            fresh == !old(self).seen_set().contains(hash),
            final(self).capacity() == old(self).capacity(),
            !fresh ==> final(self).seen_set() == old(self).seen_set() && final(self).size() == old(self).size()
                && final(self).hit_count() == old(self).hit_count() + 1 && final(self).insert_count() == old(self).insert_count(),
            fresh && old(self).size() >= old(self).capacity() ==> final(self).seen_set() == set![hash] && final(self).size() == 1,
            fresh && old(self).size() < old(self).capacity() ==> final(self).seen_set() == old(self).seen_set().insert(hash)
                && final(self).size() == old(self).size() + 1,
            fresh ==> final(self).insert_count() == old(self).insert_count() + 1 && final(self).hit_count() == old(self).hit_count(),
    {
        broadcast use vstd::seq_lib::group_seq_properties;

        let mut i: usize = 0;
        while i < self.seen.len()
            invariant
                i <= self.seen@.len(),
                self.seen@ == old(self).seen@,
                self.hits == old(self).hits,
                self.inserts == old(self).inserts,
                self.cap == old(self).cap,
                self.hits < u64::MAX,
                self.inserts < u64::MAX,
                self.seen@.no_duplicates(),
                forall|j: int| 0 <= j < i ==> self.seen@[j] != hash,
            decreases self.seen@.len() - i,
        {
            if arr_eq(&self.seen[i], &hash) {
                assert(self.seen@[i as int] =~= hash);
                assert(self.seen@.to_set().contains(self.seen@[i as int]));
                self.hits = self.hits + 1;
                return false;
            }
            i = i + 1;
        }
        assert(!self.seen@.contains(hash));
        assert(!self.seen@.to_set().contains(hash));
        if self.seen.len() >= self.cap {
            self.seen = Vec::new();
        }
        let ghost s0 = self.seen@;
        self.seen.push(hash);
        proof {
            assert forall|y: TxHash| self.seen@.contains(y) <==> (s0.contains(y) || y == hash) by {
                if y == hash {
                    assert(self.seen@[s0.len() as int] == hash);
                }
                if s0.contains(y) {
                    let j = choose|j: int| 0 <= j < s0.len() && s0[j] == y;
                    assert(self.seen@[j] == y);
                }
            }
            assert(self.seen@.to_set() =~= s0.to_set().insert(hash));
            if s0.len() == 0 {
                assert(s0.to_set() =~= Set::<TxHash>::empty());
            }
        }
        self.inserts = self.inserts + 1;
        true
    }
}

/// The next nonce to use; taking wraps as an atomic add does.
pub struct NonceTracker {
    next: u64,
    pub resyncs: u64,
}

impl NonceTracker {
    pub closed spec fn next_nonce(&self) -> u64 {
        self.next
    }

    pub closed spec fn resync_count(&self) -> u64 {
        self.resyncs
    }

    pub fn new(start: u64) -> (r: Self)
        ensures
            r.next_nonce() == start && r.resync_count() == 0,
    {
        NonceTracker { next: start, resyncs: 0 }
    }

    /// Takes the next nonce.
    pub fn take(&mut self) -> (n: u64)
        ensures
            n == old(self).next_nonce(),
            final(self).next_nonce() == n.wrapping_add(1),
            final(self).resync_count() == old(self).resync_count(),
    {
        let n = self.next;
        self.next = n.wrapping_add(1);
        n
    }

    /// Resets the next nonce to the chain's.
    pub fn resync(&mut self, chain_nonce: u64)
        requires
            old(self).resync_count() < u64::MAX,
        ensures
            final(self).next_nonce() == chain_nonce,
            final(self).resync_count() == old(self).resync_count() + 1,
    {
        self.next = chain_nonce;
        self.resyncs = self.resyncs + 1;
    }
}

/// Decoder ids by contract address.
pub struct DecoderTable {
    inner: Vec<(Address, u8)>,
}

impl DecoderTable {
    /// The address and id pairs, the first pair of an address being the one read.
    pub closed spec fn entries(&self) -> Seq<(Address, u8)> {
        self.inner@
    }

    pub fn new() -> (r: Self)
        ensures
            r.entries() == Seq::<(Address, u8)>::empty(),
    {
        DecoderTable { inner: Vec::new() }
    }

    fn find(&self, addr: &Address) -> (r: Option<usize>)
        ensures
            match r {
                Some(i) => first_key_index(self.entries(), *addr) == Some(i as int) && i < self.entries().len(),
                None => first_key_index(self.entries(), *addr) is None,
            },
    {
        let mut i: usize = 0;
        while i < self.inner.len()
            invariant
                i <= self.inner@.len(),
                forall|j: int| 0 <= j < i ==> (#[trigger] self.inner@[j]).0 != *addr,
            decreases self.inner@.len() - i,
        {
            if arr_eq(&self.inner[i].0, addr) {
                assert(self.inner@[i as int].0 =~= *addr);
                proof {
                    lemma_first_key_index(self.inner@, *addr, i as int);
                }
                return Some(i);
            }
            i = i + 1;
        }
        proof {
            lemma_first_key_index_spec(self.inner@, *addr);
        }
        None
    }

    /// The decoder registered for `addr`, if any.
    pub fn decoder_id(&self, addr: Address) -> (r: Option<u8>)
        ensures
            r == lookup_spec(self.entries(), addr),
    {
        match self.find(&addr) {
            Some(i) => Some(self.inner[i].1),
            None => None,
        }
    }

    /// Registers decoder `id` for `addr`, replacing an earlier one.
    pub fn register(&mut self, addr: Address, id: u8)
        ensures
            final(self).entries() == upsert_spec(old(self).entries(), addr, id),
    {
        let ghost e0 = self.inner@;
        match self.find(&addr) {
            Some(i) => {
                self.inner.set(i, (addr, id));
            },
            None => {
                self.inner.push((addr, id));
            },
        }
        assert(self.inner@ =~= upsert_spec(e0, addr, id));
    }
}

/// A block seen but not yet final.
#[derive(Clone, Copy, Debug)]
pub struct PendingBlock {
    pub num: BlockNum,
    pub hash: TxHash,
}

/// Holds of blocks above `n`.
pub open spec fn above(n: BlockNum) -> spec_fn(PendingBlock) -> bool {
    |b: PendingBlock| b.num > n
}

/// Holds of blocks at or below `n`.
pub open spec fn at_or_below(n: BlockNum) -> spec_fn(PendingBlock) -> bool {
    |b: PendingBlock| b.num <= n
}

/// Keeps the blocks above `n` (`keep_above`) or at or below it, in order.
fn retain_blocks(v: &Vec<PendingBlock>, n: BlockNum, keep_above: bool) -> (r: Vec<PendingBlock>)
    ensures
        keep_above ==> r@ == v@.filter(above(n)),
        !keep_above ==> r@ == v@.filter(at_or_below(n)),
{
    let mut out: Vec<PendingBlock> = Vec::new();
    let mut i: usize = 0;
    while i < v.len()
        invariant
            i <= v@.len(),
            keep_above ==> out@ == v@.subrange(0, i as int).filter(above(n)),
            !keep_above ==> out@ == v@.subrange(0, i as int).filter(at_or_below(n)),
        decreases v@.len() - i,
    {
        proof {
            reveal_with_fuel(Seq::<_>::filter, 1);
            assert(v@.subrange(0, i + 1).drop_last() == v@.subrange(0, i as int));
        }
        let b = v[i];
        if (keep_above && b.num > n) || (!keep_above && b.num <= n) {
            out.push(b);
        }
        i = i + 1;
    }
    assert(v@.subrange(0, v@.len() as int) == v@);
    out
}

/// Blocks waiting for confirmation and the last finalized block.
pub struct Indexer {
    pending: Vec<PendingBlock>,
    finalized: BlockNum,
}

impl Indexer {
    pub closed spec fn pending_blocks(&self) -> Seq<PendingBlock> {
        self.pending@
    }

    pub closed spec fn finalized_block(&self) -> BlockNum {
        self.finalized
    }

    pub fn new() -> (r: Self)
        ensures
            r.pending_blocks() == Seq::<PendingBlock>::empty(),
            r.finalized_block() == 0,
    {
        Indexer { pending: Vec::new(), finalized: 0 }
    }

    pub fn on_new_head(&mut self, block: PendingBlock)
        ensures
            final(self).pending_blocks() == old(self).pending_blocks().push(block),
            final(self).finalized_block() == old(self).finalized_block(),
    {
        self.pending.push(block);
    }

    /// Drops the blocks up to `num`, now final.
    pub fn finalize_through(&mut self, num: BlockNum)
        ensures
            final(self).pending_blocks() == old(self).pending_blocks().filter(above(num)),
            final(self).finalized_block() == num,
    {
        self.pending = retain_blocks(&self.pending, num, true);
        self.finalized = num;
    }

    /// Drops the blocks past `num`, undone by a reorg.
    pub fn rollback_to(&mut self, num: BlockNum)
        ensures
            final(self).pending_blocks() == old(self).pending_blocks().filter(at_or_below(num)),
            final(self).finalized_block() == old(self).finalized_block(),
    {
        self.pending = retain_blocks(&self.pending, num, false);
    }

    pub fn pending_len(&self) -> (n: usize)
        ensures
            n == self.pending_blocks().len(),
    {
        self.pending.len()
    }
}

/// The current base and priority fee, and how often they were published.
pub struct GasOracle {
    base_fee_wei: u64,
    priority_wei: u64,
    pub updates: u64,
}

impl GasOracle {
    pub closed spec fn fees(&self) -> (u64, u64) {
        (self.base_fee_wei, self.priority_wei)
    }

    pub closed spec fn update_count(&self) -> u64 {
        self.updates
    }

    pub fn new(base: u64, priority: u64) -> (r: Self)
        ensures
            r.fees() == (base, priority),
            r.update_count() == 0,
    {
        GasOracle { base_fee_wei: base, priority_wei: priority, updates: 0 }
    }

    pub fn publish(&mut self, base: u64, priority: u64)
        requires
            old(self).update_count() < u64::MAX,
        ensures
            final(self).fees() == (base, priority),
            final(self).update_count() == old(self).update_count() + 1,
    {
        self.base_fee_wei = base;
        self.priority_wei = priority;
        self.updates = self.updates + 1;
    }

    pub fn quote(&self) -> (r: (u64, u64))
        ensures
            r == self.fees(),
    {
        (self.base_fee_wei, self.priority_wei)
    }
}

/// A transaction waiting to be signed.
#[derive(Clone, Copy, Debug)]
pub struct PendingTx {
    pub hash: TxHash,
    pub nonce: u64,
}

/// Transactions waiting to be signed, oldest first.
pub struct TxPool {
    inner: Vec<PendingTx>,
}

impl TxPool {
    pub closed spec fn queued(&self) -> Seq<PendingTx> {
        self.inner@
    }

    pub fn new() -> (r: Self)
        ensures
            r.queued() == Seq::<PendingTx>::empty(),
    {
        TxPool { inner: Vec::new() }
    }

    pub fn submit(&mut self, tx: PendingTx)
        ensures
            final(self).queued() == old(self).queued().push(tx),
    {
        self.inner.push(tx);
    }

    /// Takes the oldest `limit` transactions, or all of them if there are fewer.
    pub fn drain_ready(&mut self, limit: usize) -> (r: Vec<PendingTx>)
        ensures
            ({
                let n = if old(self).queued().len() < limit { old(self).queued().len() } else { limit as nat };
                &&& r@ == old(self).queued().subrange(0, n as int)
                &&& final(self).queued() == old(self).queued().subrange(n as int, old(self).queued().len() as int)
            }),
    {
        let n = if self.inner.len() < limit { self.inner.len() } else { limit };
        let mut taken: Vec<PendingTx> = Vec::new();
        let mut rest: Vec<PendingTx> = Vec::new();
        let mut i: usize = 0;
        while i < self.inner.len()
            invariant
                i <= self.inner@.len(),
                n <= self.inner@.len(),
                i <= n ==> taken@ == self.inner@.subrange(0, i as int) && rest@.len() == 0,
                i > n ==> taken@ == self.inner@.subrange(0, n as int) && rest@ == self.inner@.subrange(n as int, i as int),
            decreases self.inner@.len() - i,
        {
            if i < n {
                taken.push(self.inner[i]);
            } else {
                rest.push(self.inner[i]);
            }
            i = i + 1;
            assert(i <= n ==> taken@ =~= self.inner@.subrange(0, i as int));
            assert(i > n ==> rest@ =~= self.inner@.subrange(n as int, i as int));
            assert(i > n ==> taken@ =~= self.inner@.subrange(0, n as int));
        }
        proof {
            if n == self.inner@.len() {
                assert(rest@ =~= self.inner@.subrange(n as int, n as int));
            }
        }
        self.inner = rest;
        taken
    }

    pub fn len(&self) -> (n: usize)
        ensures
            n == self.queued().len(),
    {
        self.inner.len()
    }
}

} // verus!
