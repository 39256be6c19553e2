//! Trading-system iterator patterns as verified loops: a rolling VWAP, an L2 snapshot
//! diff, a short-circuiting pre-trade risk chain, OHLCV bars, a latency histogram, a
//! fixed-size frame parser and a taker matching against a sorted book.
use vstd::prelude::*;
use crate::arith::tdiv;
use crate::bytes::{le_value, read_le};

verus! {

/// Prices are fixed-point integers.
pub type Px = i64;

pub type Qty = i64;

pub type TsNs = u64;

#[derive(Clone, Copy, Debug)]
pub struct Trade {
    pub ts_ns: TsNs,
    pub px: Px,
    pub qty: Qty,
}

#[derive(Clone, Copy, PartialEq, Eq, Structural, Debug)]
pub enum Side {
    Buy,
    Sell,
}

#[derive(Clone, Copy, Debug)]
pub struct Order {
    pub id: u64,
    pub side: Side,
    pub px: Px,
    pub qty: Qty,
}

/// The sum of price times quantity over the trades.
pub open spec fn sum_pq(w: Seq<Trade>) -> int
    decreases w.len(),
{
    if w.len() == 0 { 0 } else { sum_pq(w.drop_last()) + w.last().px * w.last().qty }
}

/// The sum of the quantities of the trades.
pub open spec fn sum_q(w: Seq<Trade>) -> int
    decreases w.len(),
{
    if w.len() == 0 { 0 } else { sum_q(w.drop_last()) + w.last().qty }
}

/// The window after a trade: the trade appended, the oldest dropped once the window
/// held `cap` trades.
pub open spec fn window_after(w: Seq<Trade>, cap: nat, t: Trade) -> Seq<Trade> {
    if w.len() == cap { w.drop_first().push(t) } else { w.push(t) }
}

/// The VWAP of a window, truncated toward zero, if its quantities do not sum to zero.
pub open spec fn vwap_of(w: Seq<Trade>) -> Option<Px> {
    if sum_q(w) != 0 { Some(tdiv(sum_pq(w), sum_q(w)) as i64) } else { None }
}

proof fn lemma_sums_drop_first(w: Seq<Trade>)
    requires
        w.len() > 0,
    ensures
        sum_pq(w) == w[0].px * w[0].qty + sum_pq(w.drop_first()),
        sum_q(w) == w[0].qty + sum_q(w.drop_first()),
    decreases w.len(),
{
    if w.len() > 1 {
        lemma_sums_drop_first(w.drop_last());
        assert(w.drop_last().drop_first() =~= w.drop_first().drop_last());
    } else {
        assert(w.drop_first() =~= Seq::<Trade>::empty());
        assert(w.drop_last() =~= Seq::<Trade>::empty());
    }
}

/// The running sums of a window stay inside `i128` when it takes the trade, before
/// and after its oldest trade leaves.
pub open spec fn vwap_fits(w: Seq<Trade>, cap: nat, t: Trade) -> bool {
    &&& i128::MIN <= sum_pq(w) + t.px * t.qty <= i128::MAX
    &&& i128::MIN <= sum_q(w) + t.qty <= i128::MAX
    &&& i128::MIN <= sum_pq(window_after(w, cap, t)) <= i128::MAX
    &&& i128::MIN <= sum_q(window_after(w, cap, t)) <= i128::MAX
    &&& !(sum_pq(window_after(w, cap, t)) == i128::MIN && sum_q(window_after(w, cap, t)) == -1)
}

/// VWAP over the last `cap` trades, kept up to date in constant time.
pub struct RollingVwap {
    window: Vec<Trade>,
    cap: usize,
    sum_pq: i128,
    sum_q: i128,
}

impl RollingVwap {
    pub closed spec fn trades(&self) -> Seq<Trade> {
        self.window@
    }

    pub closed spec fn capacity(&self) -> usize {
        self.cap
    }

    pub closed spec fn wf(&self) -> bool {
        &&& self.sum_pq == sum_pq(self.window@)
        &&& self.sum_q == sum_q(self.window@)
        &&& self.window@.len() <= self.cap
    }

    pub fn new(cap: usize) -> (r: Self)
        ensures
            r.wf(),
            r.trades() == Seq::<Trade>::empty(),
            r.capacity() == cap,
    {
        RollingVwap { window: Vec::new(), cap, sum_pq: 0, sum_q: 0 }
    }

    /// Takes a trade and returns the VWAP of the window.
    pub fn push(&mut self, t: Trade) -> (r: Option<Px>)
        requires
            old(self).wf(),
            old(self).capacity() > 0,
            vwap_fits(old(self).trades(), old(self).capacity() as nat, t),
        ensures
            final(self).wf(),
            final(self).capacity() == old(self).capacity(),
            final(self).trades() == window_after(old(self).trades(), old(self).capacity() as nat, t),
            r == vwap_of(final(self).trades()),
    {
        let ghost w0 = self.window@;
        assert(-0x4000_0000_0000_0000_0000_0000_0000_0000int <= t.px * t.qty <= 0x4000_0000_0000_0000_0000_0000_0000_0000int)
            by (nonlinear_arith)
            requires
                i64::MIN <= t.px <= i64::MAX,
                i64::MIN <= t.qty <= i64::MAX,
        ;
        self.sum_pq = self.sum_pq + (t.px as i128) * (t.qty as i128);
        self.sum_q = self.sum_q + t.qty as i128;
        if self.window.len() == self.cap {
            let old_t = self.window.remove(0);
            proof {
                lemma_sums_drop_first(w0);
                assert(w0.drop_first().push(t).drop_last() =~= w0.drop_first());
                assert(-0x4000_0000_0000_0000_0000_0000_0000_0000int <= old_t.px * old_t.qty <= 0x4000_0000_0000_0000_0000_0000_0000_0000int)
                    by (nonlinear_arith)
                    requires
                        i64::MIN <= old_t.px <= i64::MAX,
                        i64::MIN <= old_t.qty <= i64::MAX,
                ;
            }
            self.sum_pq = self.sum_pq - (old_t.px as i128) * (old_t.qty as i128);
            self.sum_q = self.sum_q - old_t.qty as i128;
        }
        let ghost mid = self.window@;
        self.window.push(t);
        proof {
            assert(self.window@.drop_last() =~= mid);
            if w0.len() == self.cap {
                assert(mid =~= w0.drop_first());
            }
        }
        if self.sum_q != 0 {
            let q = self.sum_pq / self.sum_q;
            proof {
                let a = self.sum_pq as int;
                let b = self.sum_q as int;
                assert(q as int == tdiv(a, b)) by (nonlinear_arith)
                    requires
                        q == (if a >= 0 { (a / b) as i128 } else { (-((-a) / b)) as i128 }),
                        b != 0,
                        !(a == i128::MIN && b == -1),
                        i128::MIN <= a <= i128::MAX,
                        i128::MIN <= b <= i128::MAX,
                        tdiv(a, b) == (if a >= 0 { a / b } else { -((-a) / b) }),
                ;
            }
            Some(#[verifier::truncate] (q as Px))
        } else {
            None
        }
    }
}

/// The VWAPs a stream of trades produces, the `None`s left out.
pub open spec fn vwap_outputs(ts: Seq<Trade>, cap: nat) -> Seq<Px>
    decreases ts.len(),
{
    if ts.len() == 0 {
        Seq::empty()
    } else {
        let prev = vwap_outputs(ts.drop_last(), cap);
        match vwap_of(window_state(ts, cap)) {
            Some(v) => prev.push(v),
            None => prev,
        }
    }
}

/// The window after a stream of trades.
pub open spec fn window_state(ts: Seq<Trade>, cap: nat) -> Seq<Trade>
    decreases ts.len(),
{
    if ts.len() == 0 { Seq::empty() } else { window_after(window_state(ts.drop_last(), cap), cap, ts.last()) }
}

/// Every trade of the stream keeps the window's sums inside `i128`.
pub open spec fn stream_fits(ts: Seq<Trade>, cap: nat) -> bool {
    forall|k: int| 0 <= k < ts.len() ==> vwap_fits(window_state(ts.subrange(0, k), cap), cap, #[trigger] ts[k])
}

/// The VWAP after each trade of a stream, where there is one.
#[verifier::rlimit(80)]
pub fn vwap_stream(trades: &[Trade], cap: usize) -> (r: Vec<Px>)
    requires
        cap > 0,
        stream_fits(trades@, cap as nat),
    ensures
        r@ == vwap_outputs(trades@, cap as nat),
{
    let mut state = RollingVwap::new(cap);
    let mut out: Vec<Px> = Vec::new();
    let mut i: usize = 0;
    while i < trades.len()
        invariant
            i <= trades@.len(),
            cap > 0,
            stream_fits(trades@, cap as nat),
            state.wf(),
            state.capacity() == cap,
            state.trades() == window_state(trades@.subrange(0, i as int), cap as nat),
            out@ == vwap_outputs(trades@.subrange(0, i as int), cap as nat),
        decreases trades@.len() - i,
    {
        let ghost pre = trades@.subrange(0, i + 1);
        assert(pre.drop_last() =~= trades@.subrange(0, i as int));
        assert(pre.last() == trades@[i as int]);
        assert(vwap_fits(window_state(trades@.subrange(0, i as int), cap as nat), cap as nat, trades@[i as int]));
        let r = state.push(trades[i]);
        assert(state.trades() == window_state(pre, cap as nat));
        match r {
            Some(v) => out.push(v),
            None => {},
        }
        assert(out@ == vwap_outputs(pre, cap as nat));
        i = i + 1;
    }
    assert(trades@.subrange(0, trades@.len() as int) =~= trades@);
    out
}

/// A price level.
#[derive(Clone, Copy, Debug)]
pub struct Level {
    pub px: Px,
    pub qty: Qty,
}

/// A change between two snapshots of a side.
#[derive(Clone, Copy, PartialEq, Eq, Structural, Debug)]
pub enum Delta {
    Inserted(Px, Qty),
    Updated(Px, Qty),
    Removed(Px),
}

/// The changes from `p[i..]` to `c[j..]`, both sorted by ascending price: a level only
/// in the old snapshot is removed, one only in the new is inserted, one in both with a
/// new quantity is updated, one unchanged gives nothing.
pub open spec fn diff_from(p: Seq<Level>, c: Seq<Level>, i: nat, j: nat) -> Seq<Delta>
    decreases p.len() + c.len() - i - j,
{
    if i > p.len() || j > c.len() || (i == p.len() && j == c.len()) {
        Seq::empty()
    } else if j >= c.len() || (i < p.len() && p[i as int].px < c[j as int].px) {
        if i < p.len() {
            seq![Delta::Removed(p[i as int].px)] + diff_from(p, c, i + 1, j)
        } else {
            Seq::empty()
        }
    } else if i >= p.len() || c[j as int].px < p[i as int].px {
        seq![Delta::Inserted(c[j as int].px, c[j as int].qty)] + diff_from(p, c, i, j + 1)
    } else if p[i as int].qty != c[j as int].qty {
        seq![Delta::Updated(c[j as int].px, c[j as int].qty)] + diff_from(p, c, i + 1, j + 1)
    } else {
        diff_from(p, c, i + 1, j + 1)
    }
}

/// The changes from one snapshot of a side to the next.
pub fn diff_levels(prev: &[Level], curr: &[Level]) -> (r: Vec<Delta>)
    ensures
        r@ == diff_from(prev@, curr@, 0, 0),
{
    let mut out: Vec<Delta> = Vec::new();
    let mut i: usize = 0;
    let mut j: usize = 0;
    while i < prev.len() || j < curr.len()
        invariant
            i <= prev@.len(),
            j <= curr@.len(),
            diff_from(prev@, curr@, 0, 0) == out@ + diff_from(prev@, curr@, i as nat, j as nat),
        decreases prev@.len() + curr@.len() - i - j,
    {
        let ghost before = out@;
        if j >= curr.len() || (i < prev.len() && prev[i].px < curr[j].px) {
            out.push(Delta::Removed(prev[i].px));
            i = i + 1;
        } else if i >= prev.len() || curr[j].px < prev[i].px {
            out.push(Delta::Inserted(curr[j].px, curr[j].qty));
            j = j + 1;
        } else {
            if prev[i].qty != curr[j].qty {
                out.push(Delta::Updated(curr[j].px, curr[j].qty));
            }
            i = i + 1;
            j = j + 1;
        }
        proof {
            assert(diff_from(prev@, curr@, 0, 0) =~= out@ + diff_from(prev@, curr@, i as nat, j as nat));
        }
    }
    assert(diff_from(prev@, curr@, i as nat, j as nat) =~= Seq::<Delta>::empty());
    assert(out@ + Seq::<Delta>::empty() =~= out@);
    out
}

/// Why an order was refused before it was sent.
#[derive(Clone, Copy, PartialEq, Eq, Structural, Debug)]
pub enum RiskError {
    OverPositionLimit,
    PriceDeviation,
    SelfMatch,
    ExchangeLimit,
}

/// The book of the trader.
pub struct PortfolioState {
    pub net_pos: Qty,
    pub last_mid: Px,
    pub own_resting_ids: Vec<u64>,
}

/// The absolute value.
pub open spec fn abs_val(x: int) -> int {
    if x < 0 { -x } else { x }
}

/// The position after the order would fill.
pub open spec fn pos_after(o: Order, net: Qty) -> int {
    match o.side {
        Side::Buy => net + o.qty,
        Side::Sell => net - o.qty,
    }
}

/// The first failing check, in order: position limit, price deviation from the mid by
/// more than a hundredth of it, self-match with a resting order of the trader.
pub open spec fn risk_spec(o: Order, p: PortfolioState) -> Result<(), RiskError> {
    if abs_val(pos_after(o, p.net_pos)) > 1000 {
        Err(RiskError::OverPositionLimit)
    } else if abs_val(o.px - p.last_mid) > tdiv(p.last_mid as int, 100) {
        Err(RiskError::PriceDeviation)
    } else if p.own_resting_ids@.contains(o.id) {
        Err(RiskError::SelfMatch)
    } else {
        Ok(())
    }
}

/// The arithmetic of the checks stays in range.
pub open spec fn risk_fits(o: Order, p: PortfolioState) -> bool {
    &&& i64::MIN < pos_after(o, p.net_pos) <= i64::MAX
    &&& (abs_val(pos_after(o, p.net_pos)) <= 1000 ==> i64::MIN < o.px - p.last_mid <= i64::MAX)
}

fn check_pos(o: &Order, p: &PortfolioState) -> (r: Result<(), RiskError>)
    requires
        i64::MIN < pos_after(*o, p.net_pos) <= i64::MAX,
    ensures
        r == (if abs_val(pos_after(*o, p.net_pos)) > 1000 { Err(RiskError::OverPositionLimit) } else { Ok::<(), RiskError>(()) }),
{
    let after = match o.side {
        Side::Buy => p.net_pos + o.qty,
        Side::Sell => p.net_pos - o.qty,
    };
    let a = if after < 0 { -after } else { after };
    if a > 1000 {
        Err(RiskError::OverPositionLimit)
    } else {
        Ok(())
    }
}

fn check_deviation(o: &Order, p: &PortfolioState) -> (r: Result<(), RiskError>)
    requires
        i64::MIN < o.px - p.last_mid <= i64::MAX,
    ensures
        r == (if abs_val(o.px - p.last_mid) > tdiv(p.last_mid as int, 100) { Err(RiskError::PriceDeviation) } else { Ok::<(), RiskError>(()) }),
{
    let d = o.px - p.last_mid;
    let dev = if d < 0 { -d } else { d };
    if dev > p.last_mid / 100 {
        Err(RiskError::PriceDeviation)
    } else {
        Ok(())
    }
}

fn check_self_match(o: &Order, p: &PortfolioState) -> (r: Result<(), RiskError>)
    ensures
        r == (if p.own_resting_ids@.contains(o.id) { Err(RiskError::SelfMatch) } else { Ok::<(), RiskError>(()) }),
{
    let mut i: usize = 0;
    while i < p.own_resting_ids.len()
        invariant
            i <= p.own_resting_ids@.len(),
            forall|j: int| 0 <= j < i ==> p.own_resting_ids@[j] != o.id,
        decreases p.own_resting_ids@.len() - i,
    {
        if p.own_resting_ids[i] == o.id {
            assert(p.own_resting_ids@[i as int] == o.id);
            return Err(RiskError::SelfMatch);
        }
        i = i + 1;
    }
    Ok(())
}

/// Runs the checks in order and stops at the first that fails.
pub fn validate(order: &Order, port: &PortfolioState) -> (r: Result<(), RiskError>)
    requires
        risk_fits(*order, *port),
    ensures
        r == risk_spec(*order, *port),
{
    match check_pos(order, port) {
        Err(e) => {
            return Err(e);
        },
        Ok(()) => {},
    }
    match check_deviation(order, port) {
        Err(e) => {
            return Err(e);
        },
        Ok(()) => {},
    }
    check_self_match(order, port)
}

/// An OHLCV bar.
#[derive(Clone, Copy, Debug)]
pub struct Bar {
    pub bucket_ns: TsNs,
    pub o: Px,
    pub h: Px,
    pub l: Px,
    pub c: Px,
    pub v: Qty,
}

/// The start of the time bucket of `ts`.
pub open spec fn bucket_of(ts: u64, b: u64) -> int {
    ts - ts % b
}

/// The bar of the trades `k..` of the bucket `bar` started, folded into `bar`, with the
/// index where the bucket ends.
pub open spec fn extend_bar(ts: Seq<Trade>, k: nat, b: u64, bar: Bar) -> (Bar, nat)
    decreases ts.len() - k,
{
    if k >= ts.len() || bucket_of(ts[k as int].ts_ns, b) != bar.bucket_ns {
        (bar, k)
    } else {
        let t = ts[k as int];
        extend_bar(ts, k + 1, b, Bar {
            bucket_ns: bar.bucket_ns,
            o: bar.o,
            h: if t.px > bar.h { t.px } else { bar.h },
            l: if t.px < bar.l { t.px } else { bar.l },
            c: t.px,
            v: (bar.v + t.qty) as i64,
        })
    }
}

/// The bar that starts at trade `k`.
pub open spec fn bar_at(ts: Seq<Trade>, k: nat, b: u64) -> (Bar, nat) {
    let f = ts[k as int];
    extend_bar(ts, k + 1, b, Bar {
        bucket_ns: bucket_of(f.ts_ns, b) as u64,
        o: f.px,
        h: f.px,
        l: f.px,
        c: f.px,
        v: f.qty,
    })
}

/// The volumes of a bar's folding stay inside `i64`.
pub open spec fn volume_fits(ts: Seq<Trade>, k: nat, b: u64, bar: Bar) -> bool
    decreases ts.len() - k,
{
    if k >= ts.len() || bucket_of(ts[k as int].ts_ns, b) != bar.bucket_ns {
        true
    } else {
        let t = ts[k as int];
        &&& i64::MIN <= bar.v + t.qty <= i64::MAX
        &&& volume_fits(ts, k + 1, b, Bar {
            bucket_ns: bar.bucket_ns,
            o: bar.o,
            h: if t.px > bar.h { t.px } else { bar.h },
            l: if t.px < bar.l { t.px } else { bar.l },
            c: t.px,
            v: (bar.v + t.qty) as i64,
        })
    }
}

proof fn lemma_extend_bar_moves(ts: Seq<Trade>, k: nat, b: u64, bar: Bar)
    requires
        k <= ts.len(),
    ensures
        k <= extend_bar(ts, k, b, bar).1 <= ts.len(),
    decreases ts.len() - k,
{
    if !(k >= ts.len() || bucket_of(ts[k as int].ts_ns, b) != bar.bucket_ns) {
        let t = ts[k as int];
        lemma_extend_bar_moves(ts, k + 1, b, Bar {
            bucket_ns: bar.bucket_ns,
            o: bar.o,
            h: if t.px > bar.h { t.px } else { bar.h },
            l: if t.px < bar.l { t.px } else { bar.l },
            c: t.px,
            v: (bar.v + t.qty) as i64,
        });
    }
}

/// Groups consecutive trades of one time bucket into a bar.
pub struct BarAggregator {
    trades: Vec<Trade>,
    pos: usize,
    bucket_ns: TsNs,
}

impl BarAggregator {
    pub closed spec fn input(&self) -> Seq<Trade> {
        self.trades@
    }

    /// The index of the next trade to read.
    pub closed spec fn position(&self) -> nat {
        self.pos as nat
    }

    pub closed spec fn bucket(&self) -> u64 {
        self.bucket_ns
    }

    pub closed spec fn wf(&self) -> bool {
        self.pos <= self.trades@.len()
    }

    pub fn new(trades: Vec<Trade>, bucket_ns: TsNs) -> (r: Self)
        ensures
            r.wf(),
            r.input() == trades@,
            r.position() == 0,
            r.bucket() == bucket_ns,
    {
        BarAggregator { trades, pos: 0, bucket_ns }
    }

    /// The next bar: the first unread trade and those after it in its bucket.
    pub fn next(&mut self) -> (r: Option<Bar>)
        requires
            old(self).wf(),
            old(self).bucket() > 0,
            old(self).position() < old(self).input().len() ==> {
                let f = old(self).input()[old(self).position() as int];
                volume_fits(old(self).input(), old(self).position() + 1, old(self).bucket(), Bar {
                    bucket_ns: bucket_of(f.ts_ns, old(self).bucket()) as u64,
                    o: f.px,
                    h: f.px,
                    l: f.px,
                    c: f.px,
                    v: f.qty,
                })
            },
        ensures
            final(self).wf(),
            final(self).input() == old(self).input(),
            final(self).bucket() == old(self).bucket(),
            old(self).position() >= old(self).input().len() ==> r is None && final(self).position() == old(self).position(),
            old(self).position() < old(self).input().len() ==> {
                let (bar, end) = bar_at(old(self).input(), old(self).position(), old(self).bucket());
                r == Some(bar) && final(self).position() == end
            },
    {
        if self.pos >= self.trades.len() {
            return None;
        }
        let first = self.trades[self.pos];
        assert(first.ts_ns % self.bucket_ns <= first.ts_ns) by (nonlinear_arith)
            requires
                self.bucket_ns > 0,
        ;
        let bucket = first.ts_ns - first.ts_ns % self.bucket_ns;
        let mut bar = Bar { bucket_ns: bucket, o: first.px, h: first.px, l: first.px, c: first.px, v: first.qty };
        let ghost target = bar_at(self.trades@, self.pos as nat, self.bucket_ns);
        self.pos = self.pos + 1;
        proof {
            lemma_extend_bar_moves(self.trades@, self.pos as nat, self.bucket_ns, bar);
        }
        while self.pos < self.trades.len()
            invariant_except_break
                self.pos <= self.trades@.len(),
                self.bucket_ns > 0,
                self.trades@ == old(self).trades@,
                self.bucket_ns == old(self).bucket_ns,
                target == extend_bar(self.trades@, self.pos as nat, self.bucket_ns, bar),
                volume_fits(self.trades@, self.pos as nat, self.bucket_ns, bar),
                bar.bucket_ns == bucket,
            ensures
                self.pos <= self.trades@.len(),
                self.trades@ == old(self).trades@,
                self.bucket_ns == old(self).bucket_ns,
                target == (bar, self.pos as nat),
            decreases self.trades@.len() - self.pos,
        {
            let t = self.trades[self.pos];
            assert(t.ts_ns % self.bucket_ns <= t.ts_ns) by (nonlinear_arith)
                requires
                    self.bucket_ns > 0,
            ;
            if t.ts_ns - t.ts_ns % self.bucket_ns != bucket {
                break;
            }
            self.pos = self.pos + 1;
            bar.h = if t.px > bar.h { t.px } else { bar.h };
            bar.l = if t.px < bar.l { t.px } else { bar.l };
            bar.c = t.px;
            bar.v = bar.v + t.qty;
        }
        Some(bar)
    }
}

/// The number of latency buckets: powers of two up to 2^31 ns.
pub const BUCKETS: usize = 32;

/// The number of bits needed to write `x`.
pub open spec fn bit_len(x: nat) -> nat
    decreases x,
{
    if x == 0 { 0 } else { 1 + bit_len(x / 2) }
}

/// The bucket of a sample: its bit length, capped at the last bucket.
pub open spec fn bucket_index(ns: u64) -> nat {
    if bit_len(ns as nat) < 31 { bit_len(ns as nat) } else { 31 }
}

/// How many samples fall in bucket `b`.
pub open spec fn bucket_count(s: Seq<u64>, b: nat) -> nat
    decreases s.len(),
{
    if s.len() == 0 {
        0
    } else {
        bucket_count(s.drop_last(), b) + if bucket_index(s.last()) == b { 1nat } else { 0nat }
    }
}

proof fn lemma_bucket_count_le(s: Seq<u64>, b: nat)
    ensures
        bucket_count(s, b) <= s.len(),
    decreases s.len(),
{
    if s.len() > 0 {
        lemma_bucket_count_le(s.drop_last(), b);
    }
}

/// Counts of latency samples per power-of-two bucket.
pub struct Histogram(pub [u64; 32]);

/// `2^k`.
pub open spec fn two_pow(k: nat) -> nat
    decreases k,
{
    if k == 0 { 1 } else { 2 * two_pow((k - 1) as nat) }
}

proof fn lemma_bit_len_le(x: nat, k: nat)
    requires
        x < two_pow(k),
    ensures
        bit_len(x) <= k,
    decreases k,
{
    if x > 0 {
        if k == 0 {
            assert(false);
        } else {
            lemma_bit_len_le(x / 2, (k - 1) as nat);
        }
    }
}

proof fn lemma_two_pow_64()
    ensures
        two_pow(64) == 0x1_0000_0000_0000_0000,
{
    reveal_with_fuel(two_pow, 65);
}

/// The bucket of a sample.
fn bucket_for(ns: u64) -> (b: usize)
    ensures
        b == bucket_index(ns),
        b < 32,
{
    proof {
        lemma_two_pow_64();
        lemma_bit_len_le(ns as nat, 64);
    }
    let mut x = ns;
    let mut bits: usize = 0;
    while x > 0
        invariant
            bits + bit_len(x as nat) == bit_len(ns as nat),
            bit_len(ns as nat) <= 64,
        decreases x,
    {
        x = x / 2;
        bits = bits + 1;
    }
    if bits < 31 { bits } else { 31 }
}

impl Histogram {
    /// Counts each sample in its bucket.
    pub fn from_samples(samples: &[u64]) -> (r: Self)
        ensures
            forall|b: int| 0 <= b < 32 ==> #[trigger] r.0@[b] == bucket_count(samples@, b as nat),
    {
        let mut acc = [0u64; 32];
        let mut i: usize = 0;
        while i < samples.len()
            invariant
                i <= samples@.len(),
                acc@.len() == 32,
                forall|b: int| 0 <= b < 32 ==> #[trigger] acc@[b] == bucket_count(samples@.subrange(0, i as int), b as nat),
            decreases samples@.len() - i,
        {
            let ghost pre = samples@.subrange(0, i + 1);
            assert(pre.drop_last() =~= samples@.subrange(0, i as int));
            let b = bucket_for(samples[i]);
            proof {
                lemma_bucket_count_le(samples@.subrange(0, i as int), b as nat);
            }
            acc[b] = acc[b] + 1;
            i = i + 1;
        }
        assert(samples@.subrange(0, samples@.len() as int) =~= samples@);
        Histogram(acc)
    }

    /// The number of samples counted.
    pub fn total(&self) -> (r: u64)
        requires
            cum_count(self.0@, 32) <= u64::MAX,
        ensures
            r == cum_count(self.0@, 32),
    {
        let mut sum: u64 = 0;
        let mut i: usize = 0;
        while i < 32
            invariant
                i <= 32,
                self.0@.len() == 32,
                sum == cum_count(self.0@, i as nat),
                cum_count(self.0@, 32) <= u64::MAX,
            decreases 32 - i,
        {
            proof {
                lemma_cum_count_mono(self.0@, (i + 1) as nat, 32);
            }
            sum = sum + self.0[i];
            i = i + 1;
        }
        sum
    }

    /// The upper bound `2^i` of the first bucket `i` at which the running count reaches
    /// `target`, or 0 when no bucket does: the scan behind a percentile query.
    pub fn bucket_bound_reaching(&self, target: u64) -> (r: u64)
        requires
            cum_count(self.0@, 32) <= u64::MAX,
        ensures
            reaches_at(self.0@, target as int) matches Some(i) ==> r == two_pow(i),
            reaches_at(self.0@, target as int) is None ==> r == 0,
    {
        let mut acc: u64 = 0;
        let mut bound: u64 = 1;
        let mut i: usize = 0;
        proof {
            reveal_with_fuel(two_pow, 2);
        }
        while i < 32
            invariant
                i <= 32,
                self.0@.len() == 32,
                acc == cum_count(self.0@, i as nat),
                i < 32 ==> bound == two_pow(i as nat),
                cum_count(self.0@, 32) <= u64::MAX,
                forall|j: nat| j < i ==> #[trigger] cum_count(self.0@, j + 1) < target,
            decreases 32 - i,
        {
            proof {
                lemma_cum_count_mono(self.0@, (i + 1) as nat, 32);
            }
            acc = acc + self.0[i];
            if acc >= target {
                proof {
                    lemma_reaches_at(self.0@, target as int, i as nat);
                }
                return bound;
            }
            if i < 31 {
                proof {
                    lemma_two_pow_le_31(i as nat);
                }
                bound = bound * 2;
            }
            i = i + 1;
        }
        proof {
            lemma_reaches_none(self.0@, target as int);
        }
        0
    }
}

/// The sum of the first `k` bucket counts.
pub open spec fn cum_count(h: Seq<u64>, k: nat) -> int
    decreases k,
{
    if k == 0 || k > h.len() {
        0
    } else {
        cum_count(h, (k - 1) as nat) + h[k - 1]
    }
}

/// The first of the 32 buckets at which the running count reaches `target`.
pub open spec fn reaches_at(h: Seq<u64>, target: int) -> Option<nat> {
    if exists|i: nat| i < 32 && #[trigger] cum_count(h, i + 1) >= target {
        Some(choose|i: nat| i < 32 && #[trigger] cum_count(h, i + 1) >= target
            && forall|j: nat| j < i ==> #[trigger] cum_count(h, j + 1) < target)
    } else {
        None
    }
}

proof fn lemma_cum_count_mono(h: Seq<u64>, a: nat, b: nat)
    requires
        a <= b <= h.len(),
    ensures
        cum_count(h, a) <= cum_count(h, b),
    decreases b - a,
{
    if a < b {
        lemma_cum_count_mono(h, a, (b - 1) as nat);
    }
}

proof fn lemma_reaches_at(h: Seq<u64>, target: int, i: nat)
    requires
        i < 32,
        cum_count(h, i + 1) >= target,
        forall|j: nat| j < i ==> #[trigger] cum_count(h, j + 1) < target,
    ensures
        reaches_at(h, target) == Some(i),
{
    let k = choose|k: nat| k < 32 && #[trigger] cum_count(h, k + 1) >= target
        && forall|j: nat| j < k ==> #[trigger] cum_count(h, j + 1) < target;
    assert(k < 32 && cum_count(h, k + 1) >= target && forall|j: nat| j < k ==> #[trigger] cum_count(h, j + 1) < target);
    if k < i {
        assert(cum_count(h, k + 1) < target);
    }
    if i < k {
        assert(cum_count(h, i + 1) < target);
    }
}

proof fn lemma_reaches_none(h: Seq<u64>, target: int)
    requires
        forall|j: nat| j < 32 ==> #[trigger] cum_count(h, j + 1) < target,
    ensures
        reaches_at(h, target) is None,
{
}

proof fn lemma_two_pow_le_31(i: nat)
    requires
        i < 31,
    ensures
        two_pow(i) <= 0x4000_0000,
        two_pow(i + 1) == 2 * two_pow(i),
{
    lemma_two_pow_mono(i, 30);
    assert(two_pow(30) == 0x4000_0000) by {
        reveal_with_fuel(two_pow, 31);
    }
}

proof fn lemma_two_pow_mono(a: nat, b: nat)
    requires
        a <= b,
    ensures
        two_pow(a) <= two_pow(b),
    decreases b - a,
{
    if a < b {
        lemma_two_pow_mono(a, (b - 1) as nat);
    }
}

/// Size of a wire trade record: timestamp, price and quantity, little-endian.
pub const RECORD_LEN: usize = 24;

/// The trade in record `i` of a buffer.
pub open spec fn record_trade(buf: Seq<u8>, i: int) -> Trade {
    Trade {
        ts_ns: le_value(buf.subrange(24 * i, 24 * i + 8)) as u64,
        px: (le_value(buf.subrange(24 * i + 8, 24 * i + 16)) as u64) as i64,
        qty: (le_value(buf.subrange(24 * i + 16, 24 * i + 24)) as u64) as i64,
    }
}

/// Decodes every whole record; a trailing partial record is left out.
pub fn parse(buf: &[u8]) -> (r: Vec<Trade>)
    ensures
        r@.len() == buf@.len() / 24,
        forall|i: int| 0 <= i < r@.len() ==> #[trigger] r@[i] == record_trade(buf@, i),
{
    let n = buf.len() / RECORD_LEN;
    let mut out: Vec<Trade> = Vec::new();
    let mut i: usize = 0;
    while i < n
        invariant
            i <= n,
            n == buf@.len() / 24,
            buf@.len() == buf.len(),
            out@.len() == i,
            forall|j: int| 0 <= j < i ==> #[trigger] out@[j] == record_trade(buf@, j),
        decreases n - i,
    {
        assert(24 * i + 24 <= buf@.len()) by (nonlinear_arith)
            requires
                i < n,
                n == buf@.len() / 24,
        ;
        let base = 24 * i;
        let ts = read_le(buf, base, 8);
        let px = read_le(buf, base + 8, 8);
        let qty = read_le(buf, base + 16, 8);
        out.push(Trade { ts_ns: ts, px: #[verifier::truncate] (px as i64), qty: #[verifier::truncate] (qty as i64) });
        i = i + 1;
    }
    out
}

/// Whether a maker at `px` trades with the taker.
pub open spec fn maker_crosses(taker: Order, px: Px) -> bool {
    match taker.side {
        Side::Buy => px <= taker.px,
        Side::Sell => px >= taker.px,
    }
}

/// A taker walking the makers from `k` on with `remaining` left: it fills against each
/// maker that crosses, as much as the maker holds, until nothing is left or a maker does
/// not cross. The quantity left and the fills.
pub open spec fn match_from(taker: Order, makers: Seq<Order>, k: nat, remaining: Qty) -> (Qty, Seq<(Order, Qty)>)
    decreases makers.len() - k,
{
    if remaining <= 0 || k >= makers.len() || !maker_crosses(taker, makers[k as int].px) {
        (remaining, Seq::empty())
    } else {
        let m = makers[k as int];
        let traded = if remaining < m.qty { remaining } else { m.qty };
        let rest = match_from(taker, makers, k + 1, (remaining - traded) as i64);
        (rest.0, seq![(m, traded)] + rest.1)
    }
}

/// No step of the walk overflows the quantity left.
pub open spec fn match_fits(taker: Order, makers: Seq<Order>, k: nat, remaining: Qty) -> bool
    decreases makers.len() - k,
{
    if remaining <= 0 || k >= makers.len() || !maker_crosses(taker, makers[k as int].px) {
        true
    } else {
        let m = makers[k as int];
        let traded = if remaining < m.qty { remaining } else { m.qty };
        i64::MIN <= remaining - traded <= i64::MAX && match_fits(taker, makers, k + 1, (remaining - traded) as i64)
    }
}

/// The quantity of a list of fills, added up.
pub open spec fn fill_total(fills: Seq<(Order, Qty)>) -> int
    decreases fills.len(),
{
    if fills.len() == 0 {
        0
    } else {
        fills[0].1 + fill_total(fills.drop_first())
    }
}

/// Fill `i` of a walk from maker `k` that ended with `res`: against maker `k + i`, at a
/// price no worse for the taker (a buy at or below its price, a sell at or above it), no
/// larger than the maker's quantity, and the maker's whole quantity unless it is the last
/// fill and used up what was left.
pub open spec fn fill_ok(taker: Order, makers: Seq<Order>, k: nat, res: (Qty, Seq<(Order, Qty)>), i: int, f: (Order, Qty)) -> bool {
    let m = makers[k + i];
    &&& f.0 == m
    &&& (taker.side is Buy && m.px <= taker.px) || (taker.side is Sell && m.px >= taker.px)
    &&& f.1 <= m.qty
    &&& f.1 == m.qty || (i == res.1.len() - 1 && res.0 == 0)
}

/// A taker fills the makers in order, starting at the `k`-th, and fills only makers whose
/// price is no worse for it: a buy those priced at or below its price, a sell those priced
/// at or above it. No fill is larger than its maker's quantity, the quantity left is what
/// was there less the fills, and the walk stops early only once nothing is left or at the
/// first maker whose price is worse.
pub proof fn lemma_match_from_fills(taker: Order, makers: Seq<Order>, k: nat, remaining: Qty)
    requires
        k <= makers.len(),
        match_fits(taker, makers, k, remaining),
    ensures
        k + match_from(taker, makers, k, remaining).1.len() <= makers.len(),
        match_from(taker, makers, k, remaining).0 == remaining - fill_total(match_from(taker, makers, k, remaining).1),
        forall|i: int| 0 <= i < match_from(taker, makers, k, remaining).1.len() ==> fill_ok(taker, makers, k,
            match_from(taker, makers, k, remaining), i, #[trigger] match_from(taker, makers, k, remaining).1[i]),
        match_from(taker, makers, k, remaining).0 > 0 && k + match_from(taker, makers, k, remaining).1.len() < makers.len() ==> {
            let next = makers[(k + match_from(taker, makers, k, remaining).1.len()) as int];
            (taker.side is Buy && next.px > taker.px) || (taker.side is Sell && next.px < taker.px)
        },
        remaining <= 0 ==> match_from(taker, makers, k, remaining).1.len() == 0,
    decreases makers.len() - k,
{
    if !(remaining <= 0 || k >= makers.len() || !maker_crosses(taker, makers[k as int].px)) {
        let m = makers[k as int];
        let traded = if remaining < m.qty { remaining } else { m.qty };
        let next = (remaining - traded) as i64;
        lemma_match_from_fills(taker, makers, k + 1, next);
        let rest = match_from(taker, makers, k + 1, next);
        let fills = seq![(m, traded)] + rest.1;
        let res = (rest.0, fills);
        assert(fills.drop_first() =~= rest.1);
        assert(match_from(taker, makers, k, remaining) == res);
        assert forall|i: int| 0 <= i < fills.len() implies fill_ok(taker, makers, k, res, i, #[trigger] fills[i]) by {
            if i > 0 {
                assert(fills[i] == rest.1[i - 1]);
                assert(fill_ok(taker, makers, k + 1, rest, i - 1, rest.1[i - 1]));
                assert(k + 1 + (i - 1) == k + i);
            } else {
                assert(fills[0] == (m, traded));
                assert(maker_crosses(taker, m.px));
                if traded != m.qty {
                    assert(next == 0);
                }
            }
        }
        assert(k + 1 + rest.1.len() == k + fills.len());
        assert(fill_total(fills) == traded + fill_total(rest.1));
    } else {
        assert(match_from(taker, makers, k, remaining) == (remaining, Seq::<(Order, Qty)>::empty()));
        assert(fill_total(Seq::<(Order, Qty)>::empty()) == 0);
    }
}

/// Fills a taker against makers sorted best first for it.
pub fn match_taker(taker: Order, makers: &[Order]) -> (r: (Qty, Vec<(Order, Qty)>))
    requires
        match_fits(taker, makers@, 0, taker.qty),
    ensures
        (r.0, r.1@) == match_from(taker, makers@, 0, taker.qty),
        r.1@.len() <= makers@.len(),
        r.0 == taker.qty - fill_total(r.1@),
        forall|i: int| 0 <= i < r.1@.len() ==> fill_ok(taker, makers@, 0, (r.0, r.1@), i, #[trigger] r.1@[i]),
        r.0 > 0 && r.1@.len() < makers@.len() ==> (taker.side is Buy && makers@[r.1@.len() as int].px > taker.px)
            || (taker.side is Sell && makers@[r.1@.len() as int].px < taker.px),
{
    proof {
        lemma_match_from_fills(taker, makers@, 0, taker.qty);
    }
    let mut remaining = taker.qty;
    let mut fills: Vec<(Order, Qty)> = Vec::new();
    let mut k: usize = 0;
    while remaining > 0 && k < makers.len()
        invariant_except_break
            k <= makers@.len(),
            match_fits(taker, makers@, k as nat, remaining),
            ({
                let rest = match_from(taker, makers@, k as nat, remaining);
                match_from(taker, makers@, 0, taker.qty) == (rest.0, fills@ + rest.1)
            }),
        ensures
            match_from(taker, makers@, 0, taker.qty) == (remaining, fills@),
        decreases makers@.len() - k,
    {
        let m = makers[k];
        let crosses = match taker.side {
            Side::Buy => m.px <= taker.px,
            Side::Sell => m.px >= taker.px,
        };
        if !crosses {
            assert(fills@ + Seq::<(Order, Qty)>::empty() =~= fills@);
            break;
        }
        let traded = if remaining < m.qty { remaining } else { m.qty };
        let ghost before = fills@;
        fills.push((m, traded));
        remaining = remaining - traded;
        k = k + 1;
        proof {
            let rest = match_from(taker, makers@, k as nat, remaining);
            assert(before + (seq![(m, traded)] + rest.1) =~= fills@ + rest.1);
        }
    }
    proof {
        if !(remaining > 0 && k < makers@.len()) {
            assert(fills@ + Seq::<(Order, Qty)>::empty() =~= fills@);
        }
    }
    (remaining, fills)
}

} // verus!
