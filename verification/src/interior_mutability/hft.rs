//! Trading-system state that the original shares behind cells, atomics and locks: an L2
//! book, FIX sequence numbers, a strategy registry, net position, an order rate gate,
//! instrument metadata and gateway counters. Here each is owned and changed through
//! `&mut self`; counters that were atomic wrap as atomic adds do.
use vstd::prelude::*;
use std::collections::HashMap;
use crate::interior_mutability::basics::{apply_delta_spec, best_spec, upsert_level, best_level};

verus! {

broadcast use vstd::std_specs::hash::group_hash_axioms;

pub type SymbolId = u32;

pub type Px = i64;

pub type Qty = i64;

/// Bid and ask levels fed by L2 deltas, with an update counter.
pub struct OrderBook {
    bids: Vec<(Px, Qty)>,
    asks: Vec<(Px, Qty)>,
    pub updates: u64,
}

impl OrderBook {
    pub closed spec fn bid_levels(&self) -> Seq<(i64, i64)> {
        self.bids@
    }

    pub closed spec fn ask_levels(&self) -> Seq<(i64, i64)> {
        self.asks@
    }

    pub closed spec fn update_count(&self) -> u64 {
        self.updates
    }

    pub fn new() -> (r: Self)
        ensures
            r.bid_levels() == Seq::<(i64, i64)>::empty(),
            r.ask_levels() == Seq::<(i64, i64)>::empty(),
            r.update_count() == 0,
    {
        OrderBook { bids: Vec::new(), asks: Vec::new(), updates: 0 }
    }

    /// Applies a delta to one side and counts the update.
    pub fn on_l2(&mut self, is_bid: bool, px: Px, qty: Qty)
        requires
            old(self).update_count() < u64::MAX,
        ensures
            is_bid ==> final(self).bid_levels() == apply_delta_spec(old(self).bid_levels(), px, qty)
                && final(self).ask_levels() == old(self).ask_levels(),
            !is_bid ==> final(self).ask_levels() == apply_delta_spec(old(self).ask_levels(), px, qty)
                && final(self).bid_levels() == old(self).bid_levels(),
            final(self).update_count() == old(self).update_count() + 1,
    {
        if is_bid {
            upsert_level(&mut self.bids, px, qty);
        } else {
            upsert_level(&mut self.asks, px, qty);
        }
        self.updates = self.updates + 1;
    }

    /// The highest bid price.
    pub fn best_bid(&self) -> (r: Option<Px>)
        ensures
            r == best_spec(self.bid_levels()),
    {
        best_level(&self.bids)
    }
}

/// Outbound and inbound FIX sequence numbers and the resend requests a gap caused.
pub struct FixSession {
    out_seq: u64,
    in_seq: u64,
    pub resends: u64,
}

impl FixSession {
    pub closed spec fn out_next(&self) -> u64 {
        self.out_seq
    }

    pub closed spec fn in_expected(&self) -> u64 {
        self.in_seq
    }

    pub closed spec fn resend_count(&self) -> u64 {
        self.resends
    }

    pub fn new() -> (r: Self)
        ensures
            r.out_next() == 1 && r.in_expected() == 1 && r.resend_count() == 0,
    {
        FixSession { out_seq: 1, in_seq: 1, resends: 0 }
    }

    /// Takes the next outbound sequence number.
    pub fn next_out(&mut self) -> (n: u64)
        requires
            old(self).out_next() < u64::MAX,
        ensures
            n == old(self).out_next(),
            final(self).out_next() == n + 1,
            final(self).in_expected() == old(self).in_expected(),
            final(self).resend_count() == old(self).resend_count(),
    {
        let n = self.out_seq;
        self.out_seq = n + 1;
        n
    }

    /// Accepts an inbound message unless its number is ahead of the expected one, which
    /// is a gap that asks for a resend.
    pub fn on_inbound(&mut self, seq: u64) -> (ok: bool)
        requires
            seq > old(self).in_expected() ==> old(self).resend_count() < u64::MAX,
            seq <= old(self).in_expected() ==> old(self).in_expected() < u64::MAX,
        ensures
            ok == (seq <= old(self).in_expected()),
            ok ==> final(self).in_expected() == old(self).in_expected() + 1 && final(self).resend_count() == old(self).resend_count(),
            !ok ==> final(self).in_expected() == old(self).in_expected() && final(self).resend_count() == old(self).resend_count() + 1,
            final(self).out_next() == old(self).out_next(),
    {
        let expected = self.in_seq;
        if seq > expected {
            self.resends = self.resends + 1;
            return false;
        }
        self.in_seq = expected + 1;
        true
    }
}

/// A strategy that reacts to prices.
pub trait Strategy {
    fn on_tick(&mut self, px: Px);

    fn id(&self) -> &'static str;
}

/// Remembers the last price.
pub struct Momentum {
    pub last: Px,
}

impl Strategy for Momentum {
    fn on_tick(&mut self, px: Px)
        ensures
            final(self).last == px,
    {
        self.last = px;
    }

    fn id(&self) -> (r: &'static str)
        ensures
            r@ == "mom"@,
    {
        "mom"
    }
}

/// A registered strategy.
pub struct Slot {
    pub s: Box<dyn Strategy>,
}

/// Registered strategies and the ticks dispatched to them.
pub struct Engine {
    strategies: Vec<Slot>,
    pub ticks: u64,
}

impl Engine {
    /// The registered strategies in registration order.
    pub closed spec fn slots(&self) -> Seq<Slot> {
        self.strategies@
    }

    pub open spec fn strategy_count(&self) -> nat {
        self.slots().len()
    }

    pub closed spec fn tick_count(&self) -> u64 {
        self.ticks
    }

    pub fn new() -> (r: Self)
        ensures
            r.strategy_count() == 0 && r.tick_count() == 0,
    {
        Engine { strategies: Vec::new(), ticks: 0 }
    }

    pub fn register(&mut self, s: Box<dyn Strategy>)
        ensures
            final(self).slots() == old(self).slots().push(Slot { s }),
            final(self).tick_count() == old(self).tick_count(),
    {
        self.strategies.push(Slot { s });
    }

    /// Counts the tick and hands it to every strategy in registration order.
    pub fn dispatch(&mut self, px: Px)
        requires
            old(self).tick_count() < u64::MAX,
        ensures
            final(self).tick_count() == old(self).tick_count() + 1,
            final(self).strategy_count() == old(self).strategy_count(),
    {
        self.ticks = self.ticks + 1;
        let mut i: usize = 0;
        while i < self.strategies.len()
            invariant
                i <= self.strategies@.len(),
                self.strategies@.len() == old(self).strategies@.len(),
                self.ticks == old(self).ticks + 1,
            decreases self.strategies@.len() - i,
        {
            let mut slot = self.strategies.remove(i);
            slot.s.on_tick(px);
            self.strategies.insert(i, slot);
            i = i + 1;
        }
    }

    pub fn count(&self) -> (n: usize)
        ensures
            n == self.strategy_count(),
    {
        self.strategies.len()
    }
}

/// The absolute value.
pub open spec fn abs_int(x: i64) -> int {
    if x < 0 { -x } else { x + 0 }
}

/// Net position and a version bumped on every fill; both wrap as atomic adds do.
pub struct Position {
    net: i64,
    pub version: u64,
}

impl Position {
    pub closed spec fn net_spec(&self) -> i64 {
        self.net
    }

    pub closed spec fn version_spec(&self) -> u64 {
        self.version
    }

    pub fn new() -> (r: Self)
        ensures
            r.net_spec() == 0 && r.version_spec() == 0,
    {
        Position { net: 0, version: 0 }
    }

    pub fn on_fill(&mut self, qty: Qty)
        ensures
            final(self).net_spec() == old(self).net_spec().wrapping_add(qty),
            final(self).version_spec() == old(self).version_spec().wrapping_add(1),
    {
        self.net = self.net.wrapping_add(qty);
        self.version = self.version.wrapping_add(1);
    }

    pub fn net_pos(&self) -> (r: Qty)
        ensures
            r == self.net_spec(),
    {
        self.net
    }

    /// Whether the absolute net position is within `max`.
    pub fn within_limit(&self, max: Qty) -> (r: bool)
        requires
            self.net_spec() != i64::MIN,
        ensures
            r == (abs_int(self.net_spec()) <= max),
    {
        let n = self.net_pos();
        let a = if n < 0 { -n } else { n };
        a <= max
    }
}

/// Orders allowed per time window; the counter wraps as an atomic add does.
pub struct OrderRateGate {
    window_start_ms: u64,
    count: u64,
    limit: u64,
}

impl OrderRateGate {
    pub closed spec fn window_start(&self) -> u64 {
        self.window_start_ms
    }

    pub closed spec fn count_spec(&self) -> u64 {
        self.count
    }

    pub closed spec fn limit_spec(&self) -> u64 {
        self.limit
    }

    pub fn new(limit: u64) -> (r: Self)
        ensures
            r.window_start() == 0 && r.count_spec() == 0 && r.limit_spec() == limit,
    {
        OrderRateGate { window_start_ms: 0, count: 0, limit }
    }

    /// Starts a new window at `now_ms` once the current one is over.
    pub fn maybe_advance_window(&mut self, now_ms: u64, window_ms: u64)
        requires
            old(self).window_start() + window_ms <= u64::MAX,
        ensures
            now_ms >= old(self).window_start() + window_ms ==> final(self).window_start() == now_ms && final(self).count_spec() == 0,
            now_ms < old(self).window_start() + window_ms ==> final(self).window_start() == old(self).window_start()
                && final(self).count_spec() == old(self).count_spec(),
            final(self).limit_spec() == old(self).limit_spec(),
    {
        let start = self.window_start_ms;
        if now_ms >= start + window_ms {
            self.window_start_ms = now_ms;
            self.count = 0;
        }
    }

    /// Counts an order and says whether it is within the limit.
    pub fn try_acquire(&mut self) -> (ok: bool)
        requires
            old(self).count_spec() < u64::MAX,
        ensures
            final(self).count_spec() == old(self).count_spec() + 1,
            ok == (old(self).count_spec() + 1 <= old(self).limit_spec()),
            final(self).window_start() == old(self).window_start(),
            final(self).limit_spec() == old(self).limit_spec(),
    {
        let prev = self.count;
        self.count = self.count.wrapping_add(1);
        let c = prev + 1;
        c <= self.limit
    }
}

/// Tick and lot size of an instrument.
#[derive(Clone, Copy, Debug)]
pub struct Meta {
    pub tick: Px,
    pub lot: Qty,
}

/// Instrument metadata by symbol.
pub struct InstrumentTable {
    inner: HashMap<SymbolId, Meta>,
}

/// The map that a list of entries makes, later entries winning.
pub open spec fn meta_map(entries: Seq<(SymbolId, Meta)>) -> Map<SymbolId, Meta>
    decreases entries.len(),
{
    if entries.len() == 0 {
        Map::empty()
    } else {
        meta_map(entries.drop_last()).insert(entries.last().0, entries.last().1)
    }
}

impl InstrumentTable {
    pub closed spec fn table(&self) -> Map<SymbolId, Meta> {
        self.inner@
    }

    pub fn new(entries: &[(SymbolId, Meta)]) -> (r: Self)
        ensures
            r.table() == meta_map(entries@),
    {
        let mut m: HashMap<SymbolId, Meta> = HashMap::new();
        let mut i: usize = 0;
        while i < entries.len()
            invariant
                i <= entries@.len(),
                m@ == meta_map(entries@.subrange(0, i as int)),
            decreases entries@.len() - i,
        {
            let (s, meta) = entries[i];
            m.insert(s, meta);
            assert(entries@.subrange(0, i + 1).drop_last() =~= entries@.subrange(0, i as int));
            i = i + 1;
        }
        assert(entries@.subrange(0, entries@.len() as int) =~= entries@);
        InstrumentTable { inner: m }
    }

    pub fn meta(&self, sym: SymbolId) -> (r: Option<Meta>)
        ensures
            r == (if self.table().contains_key(sym) { Some(self.table()[sym]) } else { None }),
    {
        match self.inner.get(&sym) {
            Some(m) => Some(*m),
            None => None,
        }
    }

    pub fn upsert(&mut self, sym: SymbolId, meta: Meta)
        ensures
            final(self).table() == old(self).table().insert(sym, meta),
    {
        self.inner.insert(sym, meta);
    }
}

/// Sent, acknowledged and rejected order counts; each wraps as an atomic add does.
pub struct GatewayStats {
    pub sent: u64,
    pub acked: u64,
    pub rejected: u64,
}

impl GatewayStats {
    pub fn new() -> (r: Self)
        ensures
            r.sent == 0 && r.acked == 0 && r.rejected == 0,
    {
        GatewayStats { sent: 0, acked: 0, rejected: 0 }
    }

    pub fn record_sent(&mut self)
        ensures
            final(self).sent == old(self).sent.wrapping_add(1),
            final(self).acked == old(self).acked,
            final(self).rejected == old(self).rejected,
    {
        self.sent = self.sent.wrapping_add(1);
    }

    pub fn record_ack(&mut self)
        ensures
            final(self).acked == old(self).acked.wrapping_add(1),
            final(self).sent == old(self).sent,
            final(self).rejected == old(self).rejected,
    {
        self.acked = self.acked.wrapping_add(1);
    }

    pub fn record_reject(&mut self)
        ensures
            final(self).rejected == old(self).rejected.wrapping_add(1),
            final(self).sent == old(self).sent,
            final(self).acked == old(self).acked,
    {
        self.rejected = self.rejected.wrapping_add(1);
    }

    pub fn snapshot(&self) -> (r: (u64, u64, u64))
        ensures
            r == (self.sent, self.acked, self.rejected),
    {
        (self.sent, self.acked, self.rejected)
    }
}

} // verus!
