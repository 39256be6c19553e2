//! State that changes behind a handle: sequence numbers, an L2 price book, fill
//! counters, shared configuration and a pending queue. Each is held in plain fields and
//! changed through `&mut self`, so that every transition carries a contract.
use vstd::prelude::*;
use crate::inline_caching::strategies::{first_key_index, lemma_first_key_index};

verus! {

/// Hands out consecutive sequence numbers, starting at 1.
pub struct Session {
    seq: u64,
}

impl Session {
    /// The number the next call hands out.
    pub closed spec fn peek(&self) -> u64 {
        self.seq
    }

    pub fn new() -> (r: Self)
        ensures
            r.peek() == 1,
    {
        Session { seq: 1 }
    }

    pub fn next_seq(&mut self) -> (n: u64)
        requires
            old(self).peek() < u64::MAX,
        ensures
            n == old(self).peek(),
            final(self).peek() == n + 1,
    {
        let n = self.seq;
        self.seq = n + 1;
        n
    }
}

/// Price levels after an L2 delta: quantity 0 removes every level at `px`; otherwise the
/// first level at `px` takes the new quantity, or a new level is appended.
pub open spec fn apply_delta_spec(levels: Seq<(i64, i64)>, px: i64, qty: i64) -> Seq<(i64, i64)> {
    if qty == 0 {
        levels.filter(off_price(px))
    } else {
        match first_key_index(levels, px) {
            Some(i) => levels.update(i, (px, qty)),
            None => levels.push((px, qty)),
        }
    }
}

/// Holds of a level whose price is not `px`.
pub open spec fn off_price(px: i64) -> spec_fn((i64, i64)) -> bool {
    |e: (i64, i64)| e.0 != px
}

/// Highest price among the levels.
pub open spec fn max_px(levels: Seq<(i64, i64)>) -> i64
    decreases levels.len(),
{
    if levels.len() <= 1 {
        levels[0].0
    } else {
        let m = max_px(levels.drop_last());
        if levels.last().0 > m { levels.last().0 } else { m }
    }
}

/// The best price of a side: the highest level price, if any.
pub open spec fn best_spec(levels: Seq<(i64, i64)>) -> Option<i64> {
    if levels.len() == 0 {
        None
    } else {
        Some(max_px(levels))
    }
}

/// Applies an L2 delta to a list of price levels.
pub(crate) fn upsert_level(levels: &mut Vec<(i64, i64)>, px: i64, qty: i64)
    ensures
        final(levels)@ == apply_delta_spec(old(levels)@, px, qty),
{
    let ghost l0 = levels@;
    if qty == 0 {
        let mut out: Vec<(i64, i64)> = Vec::new();
        let mut i: usize = 0;
        while i < levels.len()
            invariant
                levels@ == l0,
                i <= l0.len(),
                out@ == l0.subrange(0, i as int).filter(off_price(px)),
            decreases l0.len() - i,
        {
            let e = levels[i];
            proof {
                reveal_with_fuel(Seq::<_>::filter, 1);
                assert(l0.subrange(0, i + 1).drop_last() == l0.subrange(0, i as int));
            }
            if e.0 != px {
                out.push(e);
            }
            i = i + 1;
        }
        assert(l0.subrange(0, l0.len() as int) == l0);
        *levels = out;
        return;
    }
    let mut i: usize = 0;
    while i < levels.len()
        invariant
            levels@ == l0,
            l0 == old(levels)@,
            qty != 0,
            i <= l0.len(),
            forall|j: int| 0 <= j < i ==> (#[trigger] l0[j]).0 != px,
        decreases l0.len() - i,
    {
        if levels[i].0 == px {
            proof {
                lemma_first_key_index(l0, px, i as int);
            }
            levels.set(i, (px, qty));
            return;
        }
        i = i + 1;
    }
    levels.push((px, qty));
}

/// The highest price of a list of levels.
pub(crate) fn best_level(levels: &Vec<(i64, i64)>) -> (r: Option<i64>)
    ensures
        r == best_spec(levels@),
{
    if levels.len() == 0 {
        return None;
    }
    let mut m = levels[0].0;
    let mut i: usize = 1;
    while i < levels.len()
        invariant
            1 <= i <= levels@.len(),
            m == max_px(levels@.subrange(0, i as int)),
        decreases levels@.len() - i,
    {
        proof {
            assert(levels@.subrange(0, i + 1).drop_last() == levels@.subrange(0, i as int));
        }
        if levels[i].0 > m {
            m = levels[i].0;
        }
        i = i + 1;
    }
    assert(levels@.subrange(0, levels@.len() as int) == levels@);
    Some(m)
}

/// One side of a price book.
pub struct Book {
    bids: Vec<(i64, i64)>,
}

impl Book {
    pub closed spec fn levels(&self) -> Seq<(i64, i64)> {
        self.bids@
    }

    pub fn new() -> (r: Self)
        ensures
            r.levels() == Seq::<(i64, i64)>::empty(),
    {
        Book { bids: Vec::new() }
    }

    pub fn apply_delta(&mut self, px: i64, qty: i64)
        ensures
            final(self).levels() == apply_delta_spec(old(self).levels(), px, qty),
    {
        upsert_level(&mut self.bids, px, qty);
    }

    pub fn best_bid(&self) -> (r: Option<i64>)
        ensures
            r == best_spec(self.levels()),
    {
        best_level(&self.bids)
    }
}

/// An order book fed by L2 updates.
pub struct OrderBook {
    book: Book,
}

impl OrderBook {
    pub closed spec fn levels(&self) -> Seq<(i64, i64)> {
        self.book.levels()
    }

    pub fn new() -> (r: Self)
        ensures
            r.levels() == Seq::<(i64, i64)>::empty(),
    {
        OrderBook { book: Book::new() }
    }

    pub fn on_l2(&mut self, px: i64, qty: i64)
        ensures
            final(self).levels() == apply_delta_spec(old(self).levels(), px, qty),
    {
        self.book.apply_delta(px, qty);
    }

    pub fn snapshot_best(&self) -> (r: Option<i64>)
        ensures
            r == best_spec(self.levels()),
    {
        self.book.best_bid()
    }
}

/// Fill and reject counters; increments wrap like atomic adds.
pub struct Metrics {
    pub fills: u64,
    pub rejects: u64,
}

impl Metrics {
    pub fn new() -> (r: Self)
        ensures
            r.fills == 0 && r.rejects == 0,
    {
        Metrics { fills: 0, rejects: 0 }
    }

    pub fn record_fill(&mut self)
        ensures
            final(self).fills == (old(self).fills + 1) % 0x1_0000_0000_0000_0000,
            final(self).rejects == old(self).rejects,
    {
        self.fills = self.fills.wrapping_add(1);
    }

    pub fn snapshot(&self) -> (r: (u64, u64))
        ensures
            r == (self.fills, self.rejects),
    {
        (self.fills, self.rejects)
    }
}

/// A tick size shared by readers and a writer.
pub struct SharedConfig {
    tick: i64,
}

impl SharedConfig {
    pub closed spec fn tick(&self) -> i64 {
        self.tick
    }

    pub fn new(tick: i64) -> (r: Self)
        ensures
            r.tick() == tick,
    {
        SharedConfig { tick }
    }

    pub fn tick_size(&self) -> (r: i64)
        ensures
            r == self.tick(),
    {
        self.tick
    }

    pub fn set_tick(&mut self, tick: i64)
        ensures
            final(self).tick() == tick,
    {
        self.tick = tick;
    }
}

/// Order ids waiting to be sent.
pub struct PendingQueue {
    inner: Vec<u64>,
}

impl PendingQueue {
    pub closed spec fn ids(&self) -> Seq<u64> {
        self.inner@
    }

    pub fn new() -> (r: Self)
        ensures
            r.ids() == Seq::<u64>::empty(),
    {
        PendingQueue { inner: Vec::new() }
    }

    pub fn push(&mut self, id: u64)
        ensures
            final(self).ids() == old(self).ids().push(id),
    {
        self.inner.push(id);
    }

    pub fn len(&self) -> (n: usize)
        ensures
            n == self.ids().len(),
    {
        self.inner.len()
    }
}

/// Decodes a venue buffer with the decoder chosen once: its length.
pub fn decode_once(buf: &[u8]) -> (n: usize)
    ensures
        n == buf@.len(),
{
    buf.len()
}

} // verus!
