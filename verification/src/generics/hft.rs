//! Trading-side generics: venue-branded prices, a bounded SPSC queue, statically
//! dispatched strategies, composable pre-trade checks, protocol decoders, a typed
//! event bus and a latency histogram.
use std::marker::PhantomData;
use vstd::prelude::*;

verus! {

pub type Px = i64;

pub type Qty = i64;

#[derive(Debug, Clone, Copy, PartialEq, Eq, Structural)]
pub enum Side {
    Buy,
    Sell,
}

/// Marker for Binance prices.
pub struct VenueBinance;

/// Marker for CME prices.
pub struct VenueCme;

/// A raw price branded with its venue.
pub struct Price<V> {
    raw: i64,
    _v: PhantomData<V>,
}

impl<V> Price<V> {
    pub closed spec fn view(&self) -> i64 {
        self.raw
    }

    pub fn new(raw: i64) -> (r: Self)
        ensures
            r.view() == raw,
    {
        Price { raw, _v: PhantomData }
    }

    pub fn raw(&self) -> (r: i64)
        ensures
            r == self.view(),
    {
        self.raw
    }
}

/// Converts a CME quarter-tick price into Binance ticks.
pub fn cme_to_binance(p: Price<VenueCme>) -> (r: Price<VenueBinance>)
    requires
        i64::MIN <= p.view() * 4 <= i64::MAX,
    ensures
        r.view() == p.view() * 4,
{
    Price::new(p.raw() * 4)
}

/// A fixed-capacity single-producer single-consumer FIFO queue.
pub struct SpscQueue<T, const CAP: usize> {
    buf: Vec<Option<T>>,
    head: usize,
    tail: usize,
    len: usize,
}

/// Slot of the `i`-th queued element when the queue starts at `h` in a ring of `n` slots.
pub open spec fn spsc_slot(h: int, i: int, n: int) -> int {
    if h + i < n {
        h + i
    } else {
        h + i - n
    }
}

impl<T, const CAP: usize> SpscQueue<T, CAP> {
    pub closed spec fn wf(&self) -> bool {
        &&& self.buf@.len() == CAP
        &&& self.len <= CAP
        &&& CAP > 0 ==> self.head < CAP && self.tail < CAP
        &&& self.len < CAP ==> self.tail as int == spsc_slot(self.head as int, self.len as int, CAP as int)
        &&& self.len == CAP ==> self.tail == self.head
        &&& CAP == 0 ==> self.head == 0 && self.tail == 0
        &&& forall|i: int| 0 <= i < self.len ==> (#[trigger] self.buf@[spsc_slot(self.head as int, i, CAP as int)]) is Some
    }

    /// Queued elements, oldest first.
    pub closed spec fn view(&self) -> Seq<T> {
        Seq::new(self.len as nat, |i: int| self.buf@[spsc_slot(self.head as int, i, CAP as int)]->Some_0)
    }

    pub fn new() -> (r: Self)
        ensures
            r.wf(),
            r.view() == Seq::<T>::empty(),
    {
        let mut buf: Vec<Option<T>> = Vec::new();
        let mut i: usize = 0;
        while i < CAP
            invariant
                i <= CAP,
                buf@.len() == i,
            decreases CAP - i,
        {
            buf.push(None);
            i = i + 1;
        }
        let r = SpscQueue { buf, head: 0, tail: 0, len: 0 };
        proof {
            assert(r.view() =~= Seq::<T>::empty());
        }
        r
    }

    /// Enqueues `v`, or hands it back when the queue is full.
    pub fn try_push(&mut self, v: T) -> (r: Result<(), T>)
        requires
            old(self).wf(),
        ensures
            final(self).wf(),
            old(self).view().len() == CAP ==> r == Err::<(), T>(v) && final(self).view() == old(self).view(),
            old(self).view().len() < CAP ==> r is Ok && final(self).view() == old(self).view().push(v),
    {
        if self.len == CAP {
            return Err(v);
        }
        let ghost old_view = self.view();
        let ghost old_buf = self.buf@;
        let ghost h = self.head as int;
        let n = CAP;
        let t = self.tail;
        self.buf.set(t, Some(v));
        self.tail = if t + 1 < n { t + 1 } else { 0 };
        self.len = self.len + 1;
        proof {
            let nn = CAP as int;
            assert forall|i: int| 0 <= i < old_view.len() implies spsc_slot(h, i, nn) != t as int by {}
            assert(self.view() =~= old_view.push(v));
            assert forall|i: int| 0 <= i < self.len implies
                (#[trigger] self.buf@[spsc_slot(self.head as int, i, nn)]) is Some by {
                if i < old_view.len() {
                    assert(old_buf[spsc_slot(h, i, nn)] is Some);
                }
            }
        }
        Ok(())
    }

    /// Dequeues the oldest element, if any.
    pub fn try_pop(&mut self) -> (r: Option<T>)
        requires
            old(self).wf(),
        ensures
            final(self).wf(),
            old(self).view().len() == 0 ==> r is None && final(self).view() == old(self).view(),
            old(self).view().len() > 0 ==> r == Some(old(self).view()[0])
                && final(self).view() == old(self).view().drop_first(),
    {
        if self.len == 0 {
            return None;
        }
        let ghost old_view = self.view();
        let ghost old_buf = self.buf@;
        let ghost h = self.head as int;
        let n = CAP;
        proof {
            assert(old_buf[spsc_slot(h, 0, n as int)] is Some);
        }
        let v = self.buf[self.head].take();
        self.head = if self.head + 1 < n { self.head + 1 } else { 0 };
        self.len = self.len - 1;
        proof {
            let nn = CAP as int;
            assert forall|i: int| 0 <= i < self.len implies
                spsc_slot(self.head as int, i, nn) == spsc_slot(h, i + 1, nn)
                && spsc_slot(h, i + 1, nn) != h by {}
            assert(self.view() =~= old_view.drop_first()) by {
                assert forall|i: int| 0 <= i < self.len implies self.view()[i] == old_view[i + 1] by {
                    assert(spsc_slot(self.head as int, i, nn) == spsc_slot(h, i + 1, nn));
                }
            }
            assert forall|i: int| 0 <= i < self.len implies
                (#[trigger] self.buf@[spsc_slot(self.head as int, i, nn)]) is Some by {
                assert(old_buf[spsc_slot(h, i + 1, nn)] is Some);
            }
        }
        v
    }

    pub fn len(&self) -> (n: usize)
        requires
            self.wf(),
        ensures
            n == self.view().len(),
    {
        self.len
    }
}

/// A statically dispatched execution strategy.
pub trait Strategy: Sized {
    /// The order the strategy emits on seeing `mid`, if any.
    spec fn order_on(&self, mid: Px) -> Option<(Side, Qty)>;

    /// The strategy after it has seen `mid`.
    spec fn after_tick(&self, mid: Px) -> Self;

    fn on_tick(&mut self, mid: Px) -> (r: Option<(Side, Qty)>)
        ensures
            r == old(self).order_on(mid),
            *final(self) == old(self).after_tick(mid),
    ;
}

/// Time-weighted slicing: buys a fixed quantity per tick until its slices run out.
pub struct Twap {
    slices_left: u32,
    qty_per_slice: Qty,
}

/// What a TWAP does on a tick, stated over its slices and slice size.
pub proof fn lemma_twap_tick(t: Twap, mid: Px)
    ensures
        t.order_on(mid) == (if t.slices_left() == 0 { None } else { Some((Side::Buy, t.qty_per_slice())) }),
        t.after_tick(mid).slices_left() == (if t.slices_left() == 0 { 0 } else { (t.slices_left() - 1) as u32 }),
        t.after_tick(mid).qty_per_slice() == t.qty_per_slice(),
{
}

/// A TWAP with `s` slices of `q` buys `q` on each of its next `s` ticks and then stops:
/// over any ticks it emits `min(s, ticks)` orders and keeps `s - min(s, ticks)` slices.
pub proof fn lemma_twap_run(t: Twap, mids: Seq<Px>)
    ensures
        run_strategy(t, mids).1 == (if mids.len() <= t.slices_left() { mids.len() } else { t.slices_left() as nat }),
        run_strategy(t, mids).0.slices_left() == (if mids.len() <= t.slices_left() { t.slices_left() - mids.len() } else { 0 }),
        run_strategy(t, mids).0.qty_per_slice() == t.qty_per_slice(),
        forall|k: int| 0 <= k < mids.len() ==> (#[trigger] run_strategy(t, mids.subrange(0, k)).0).order_on(mids[k])
            == (if k < t.slices_left() { Some((Side::Buy, t.qty_per_slice())) } else { None }),
    decreases mids.len(),
{
    if mids.len() > 0 {
        let init = mids.drop_last();
        lemma_twap_run(t, init);
        assert forall|k: int| 0 <= k < mids.len() implies (#[trigger] run_strategy(t, mids.subrange(0, k)).0).order_on(mids[k])
            == (if k < t.slices_left() { Some((Side::Buy, t.qty_per_slice())) } else { None }) by {
            if k < init.len() {
                assert(mids.subrange(0, k) =~= init.subrange(0, k));
                assert(mids[k] == init[k]);
            } else {
                assert(mids.subrange(0, k) =~= init);
            }
        }
    }
}

impl Twap {
    pub closed spec fn slices_left(&self) -> u32 {
        self.slices_left
    }

    pub closed spec fn qty_per_slice(&self) -> Qty {
        self.qty_per_slice
    }

    pub fn new(slices: u32, qty_per_slice: Qty) -> (r: Self)
        ensures
            r.slices_left() == slices,
            r.qty_per_slice() == qty_per_slice,
    {
        Twap { slices_left: slices, qty_per_slice }
    }
}

impl Strategy for Twap {
    /// A buy of one slice while slices remain.
    closed spec fn order_on(&self, mid: Px) -> Option<(Side, Qty)> {
        if self.slices_left == 0 {
            None
        } else {
            Some((Side::Buy, self.qty_per_slice))
        }
    }

    /// One slice fewer, once slices remain.
    closed spec fn after_tick(&self, mid: Px) -> Self {
        Twap {
            slices_left: if self.slices_left == 0 { 0 } else { (self.slices_left - 1) as u32 },
            qty_per_slice: self.qty_per_slice,
        }
    }

    fn on_tick(&mut self, mid: Px) -> (r: Option<(Side, Qty)>)
        ensures
            old(self).slices_left() == 0 ==> r is None && final(self).slices_left() == 0,
            old(self).slices_left() > 0 ==> r == Some((Side::Buy, old(self).qty_per_slice()))
                && final(self).slices_left() == old(self).slices_left() - 1,
            final(self).qty_per_slice() == old(self).qty_per_slice(),
    {
        if self.slices_left == 0 {
            return None;
        }
        self.slices_left = self.slices_left - 1;
        Some((Side::Buy, self.qty_per_slice))
    }
}

/// Runs a strategy over ticks and counts the orders it emits.
pub struct Engine<S: Strategy> {
    strategy: S,
    fills: u32,
}

impl<S: Strategy> Engine<S> {
    pub closed spec fn fills(&self) -> u32 {
        self.fills
    }

    pub closed spec fn strategy(&self) -> S {
        self.strategy
    }

    pub fn new(strategy: S) -> (r: Self)
        ensures
            r.fills() == 0,
            r.strategy() == strategy,
    {
        Engine { strategy, fills: 0 }
    }

    /// Feeds every mid to the strategy, in order; counts each order it emits and returns
    /// the running count.
    pub fn run_ticks(&mut self, mids: &[Px]) -> (r: u32)
        requires
            old(self).fills() + run_strategy(old(self).strategy(), mids@).1 <= u32::MAX,
        ensures
            final(self).strategy() == run_strategy(old(self).strategy(), mids@).0,
            r == old(self).fills() + run_strategy(old(self).strategy(), mids@).1,
            r == final(self).fills(),
    {
        let ghost s0 = self.strategy;
        let mut i: usize = 0;
        while i < mids.len()
            invariant
                i <= mids@.len(),
                self.strategy == run_strategy(s0, mids@.subrange(0, i as int)).0,
                self.fills == old(self).fills() + run_strategy(s0, mids@.subrange(0, i as int)).1,
                s0 == old(self).strategy(),
                old(self).fills() + run_strategy(s0, mids@).1 <= u32::MAX,
            decreases mids@.len() - i,
        {
            proof {
                assert(mids@.subrange(0, i + 1).drop_last() =~= mids@.subrange(0, i as int));
                lemma_run_strategy_prefix(s0, mids@, (i + 1) as nat);
            }
            let mid = mids[i];
            if let Some(_) = self.strategy.on_tick(mid) {
                self.fills = self.fills + 1;
            }
            i = i + 1;
        }
        assert(mids@.subrange(0, mids@.len() as int) =~= mids@);
        self.fills
    }
}

/// A strategy run over ticks in order: the strategy afterwards, and how many of the
/// ticks made it emit an order.
pub open spec fn run_strategy<S: Strategy>(s: S, mids: Seq<Px>) -> (S, nat)
    decreases mids.len(),
{
    if mids.len() == 0 {
        (s, 0)
    } else {
        let prev = run_strategy(s, mids.drop_last());
        (prev.0.after_tick(mids.last()), prev.1 + if prev.0.order_on(mids.last()) is Some { 1nat } else { 0nat })
    }
}

/// A run over a prefix emits no more orders than the run over all ticks.
proof fn lemma_run_strategy_prefix<S: Strategy>(s: S, mids: Seq<Px>, k: nat)
    requires
        k <= mids.len(),
    ensures
        run_strategy(s, mids.subrange(0, k as int)).1 <= run_strategy(s, mids).1,
    decreases mids.len(),
{
    if k < mids.len() {
        assert(mids.drop_last().subrange(0, k as int) =~= mids.subrange(0, k as int));
        lemma_run_strategy_prefix(s, mids.drop_last(), k);
    } else {
        assert(mids.subrange(0, k as int) =~= mids);
    }
}

/// Order context seen by pre-trade checks.
pub struct OrderCtx {
    pub px: Px,
    pub qty: Qty,
    pub position: Qty,
}

/// A pre-trade rule over contexts of type `C`.
pub trait Check<C> {
    /// Whether the rule lets `ctx` through.
    spec fn accepts(&self, ctx: &C) -> bool;

    /// The message the rule rejects `ctx` with, if it does.
    spec fn rejection(&self, ctx: &C) -> Option<Seq<char>>;

    fn validate(&self, ctx: &C) -> (r: Result<(), &'static str>)
        ensures
            r is Ok <==> self.accepts(ctx),
            match r {
                Ok(()) => self.rejection(ctx) is None,
                Err(e) => self.rejection(ctx) == Some(e@),
            },
    ;
}

/// Rejects prices above a ceiling.
pub struct PriceBand {
    pub max_px: Px,
}

impl Check<OrderCtx> for PriceBand {
    open spec fn accepts(&self, ctx: &OrderCtx) -> bool {
        ctx.px <= self.max_px
    }

    open spec fn rejection(&self, ctx: &OrderCtx) -> Option<Seq<char>> {
        if ctx.px > self.max_px { Some("price above band"@) } else { None }
    }

    fn validate(&self, ctx: &OrderCtx) -> (r: Result<(), &'static str>) {
        if ctx.px > self.max_px {
            Err("price above band")
        } else {
            Ok(())
        }
    }
}

/// Rejects orders whose resulting absolute position exceeds a limit.
pub struct PositionLimit {
    pub max_abs: Qty,
}

impl Check<OrderCtx> for PositionLimit {
    open spec fn accepts(&self, ctx: &OrderCtx) -> bool {
        let after = ctx.position + ctx.qty;
        (if after < 0 { -after } else { after }) <= self.max_abs
    }

    open spec fn rejection(&self, ctx: &OrderCtx) -> Option<Seq<char>> {
        let after = ctx.position + ctx.qty;
        if (if after < 0 { -after } else { after }) > self.max_abs { Some("position limit"@) } else { None }
    }

    fn validate(&self, ctx: &OrderCtx) -> (r: Result<(), &'static str>) {
        let after: i128 = ctx.position as i128 + ctx.qty as i128;
        let abs: i128 = if after < 0 { -after } else { after };
        if abs > self.max_abs as i128 {
            Err("position limit")
        } else {
            Ok(())
        }
    }
}

/// Two checks in sequence: the first one's rejection wins.
impl<C, A: Check<C>, B: Check<C>> Check<C> for (A, B) {
    open spec fn accepts(&self, ctx: &C) -> bool {
        self.0.accepts(ctx) && self.1.accepts(ctx)
    }

    open spec fn rejection(&self, ctx: &C) -> Option<Seq<char>> {
        match self.0.rejection(ctx) {
            Some(e) => Some(e),
            None => self.1.rejection(ctx),
        }
    }

    fn validate(&self, ctx: &C) -> (r: Result<(), &'static str>) {
        match self.0.validate(ctx) {
            Err(e) => Err(e),
            Ok(()) => self.1.validate(ctx),
        }
    }
}

/// A composed set of checks applied to contexts of type `C`.
pub struct Pipeline<C, Checks> {
    checks: Checks,
    _ctx: PhantomData<C>,
}

impl<C, Checks> Pipeline<C, Checks> {
    pub closed spec fn checks(&self) -> Checks {
        self.checks
    }

    pub fn new(checks: Checks) -> (r: Self)
        ensures
            r.checks() == checks,
    {
        Pipeline { checks, _ctx: PhantomData }
    }
}

impl<C, Checks: Check<C>> Pipeline<C, Checks> {
    /// Runs the checks; the first rule that rejects names the reason.
    pub fn run(&self, ctx: &C) -> (r: Result<(), &'static str>)
        ensures
            r is Ok <==> self.checks().accepts(ctx),
            match r {
                Ok(()) => self.checks().rejection(ctx) is None,
                Err(e) => self.checks().rejection(ctx) == Some(e@),
            },
    {
        self.checks.validate(ctx)
    }
}

/// A zero-copy protocol frame layout.
pub trait FieldSpec<'a> {
    type View;

    /// Frames the parser can decode without arithmetic overflow.
    spec fn parse_ok(raw: Seq<u8>) -> bool;

    /// How a frame relates to what the parser returns for it.
    spec fn parse_rel(raw: Seq<u8>, out: Option<Self::View>) -> bool;

    fn parse(raw: &'a [u8]) -> (r: Option<Self::View>)
        requires
            Self::parse_ok(raw@),
        ensures
            Self::parse_rel(raw@, r),
    ;
}

/// An order reference and price borrowed from a FIX-like frame.
pub struct FixOrderView<'a> {
    pub order_id: &'a [u8],
    pub price: u64,
}

/// The `id|price` frame layout.
pub struct FixSpec;

/// Whether `b` is an ASCII digit.
pub open spec fn is_digit(b: u8) -> bool {
    48 <= b <= 57
}

/// Decimal value of the digits of `s`, skipping every non-digit byte.
pub open spec fn digits_value(s: Seq<u8>) -> nat
    decreases s.len(),
{
    if s.len() == 0 {
        0
    } else {
        let prev = digits_value(s.drop_last());
        let b = s.last();
        if is_digit(b) {
            prev * 10 + (b - 48) as nat
        } else {
            prev
        }
    }
}

/// Index of the first byte equal to `x`, if any.
pub open spec fn first_index_of(s: Seq<u8>, x: u8) -> Option<int> {
    if exists|i: int| 0 <= i < s.len() && s[i] == x {
        Some(choose|i: int| 0 <= i < s.len() && s[i] == x && forall|j: int| 0 <= j < i ==> s[j] != x)
    } else {
        None
    }
}

proof fn lemma_digits_value_prefix_le(s: Seq<u8>, k: int)
    requires
        0 <= k <= s.len(),
    ensures
        digits_value(s.subrange(0, k)) <= digits_value(s),
    decreases s.len() - k,
{
    if k < s.len() {
        lemma_digits_value_prefix_le(s, k + 1);
        assert(s.subrange(0, k + 1).drop_last() == s.subrange(0, k));
    } else {
        assert(s.subrange(0, k) == s);
    }
}

/// Scans a byte slice for the first occurrence of `x`.
pub fn find_byte(s: &[u8], x: u8) -> (r: Option<usize>)
    ensures
        match r {
            Some(i) => i < s@.len() && s@[i as int] == x && forall|j: int| 0 <= j < i ==> s@[j] != x,
            None => forall|j: int| 0 <= j < s@.len() ==> s@[j] != x,
        },
{
    let mut i: usize = 0;
    while i < s.len()
        invariant
            i <= s@.len(),
            forall|j: int| 0 <= j < i ==> s@[j] != x,
        decreases s@.len() - i,
    {
        if s[i] == x {
            return Some(i);
        }
        i = i + 1;
    }
    None
}

impl<'a> FieldSpec<'a> for FixSpec {
    type View = FixOrderView<'a>;

    open spec fn parse_ok(raw: Seq<u8>) -> bool {
        forall|i: int| 0 <= i < raw.len() && raw[i] == 124 ==> (forall|j: int| 0 <= j < i ==> raw[j] != 124)
            ==> digits_value(raw.subrange(i + 1, raw.len() as int)) <= u64::MAX
    }

    open spec fn parse_rel(raw: Seq<u8>, out: Option<FixOrderView<'a>>) -> bool {
        match out {
            None => forall|j: int| 0 <= j < raw.len() ==> raw[j] != 124,
            Some(v) => exists|i: int|
                #![trigger raw[i]]
                0 <= i < raw.len() && raw[i] == 124 && (forall|j: int| 0 <= j < i ==> raw[j] != 124)
                && v.order_id@ == raw.subrange(0, i)
                && v.price == digits_value(raw.subrange(i + 1, raw.len() as int)),
        }
    }

    fn parse(raw: &'a [u8]) -> (r: Option<FixOrderView<'a>>) {
        let sep = match find_byte(raw, 124u8) {
            Some(s) => s,
            None => return None,
        };
        assert(sep < raw.len());
        let ghost tail = raw@.subrange(sep + 1, raw@.len() as int);
        let mut price: u64 = 0;
        let mut k: usize = sep + 1;
        while k < raw.len()
            invariant
                sep < raw@.len(),
                sep + 1 <= k <= raw@.len(),
                tail == raw@.subrange(sep + 1, raw@.len() as int),
                digits_value(tail) <= u64::MAX,
                price == digits_value(raw@.subrange(sep + 1, k as int)),
            decreases raw@.len() - k,
        {
            let b = raw[k];
            proof {
                assert(raw@.subrange(sep + 1, k + 1).drop_last() == raw@.subrange(sep + 1, k as int));
                assert(raw@.subrange(sep + 1, k + 1) == tail.subrange(0, k + 1 - (sep + 1)));
                lemma_digits_value_prefix_le(tail, k + 1 - (sep + 1));
            }
            if b >= 48u8 && b <= 57u8 {
                price = price * 10 + (b - 48u8) as u64;
            }
            k = k + 1;
        }
        proof {
            assert(raw@.subrange(sep + 1, k as int) == tail);
        }
        let (id, _) = raw.split_at(sep);
        Some(FixOrderView { order_id: id, price })
    }
}

/// A stock symbol and share count borrowed from an ITCH-like frame.
pub struct ItchOrderView<'a> {
    pub stock: &'a [u8],
    pub shares: u32,
}

/// The `symbol ++ shares(le u32)` frame layout.
pub struct ItchSpec;

/// Little-endian value of four bytes.
pub open spec fn le_u32(b0: u8, b1: u8, b2: u8, b3: u8) -> u32 {
    (b0 as int + 256 * b1 as int + 65536 * b2 as int + 16777216 * b3 as int) as u32
}

impl<'a> FieldSpec<'a> for ItchSpec {
    type View = ItchOrderView<'a>;

    open spec fn parse_ok(raw: Seq<u8>) -> bool {
        true
    }

    open spec fn parse_rel(raw: Seq<u8>, out: Option<ItchOrderView<'a>>) -> bool {
        match out {
            None => raw.len() < 6,
            Some(v) => raw.len() >= 6 && v.stock@ == raw.subrange(0, raw.len() - 4)
                && v.shares == le_u32(raw[raw.len() - 4], raw[raw.len() - 3], raw[raw.len() - 2], raw[raw.len() - 1]),
        }
    }

    fn parse(raw: &'a [u8]) -> (r: Option<ItchOrderView<'a>>) {
        if raw.len() < 6 {
            return None;
        }
        let n = raw.len();
        let shares: u32 = raw[n - 4] as u32 + 256 * (raw[n - 3] as u32) + 65536 * (raw[n - 2] as u32)
            + 16777216 * (raw[n - 1] as u32);
        let (stock, _) = raw.split_at(n - 4);
        Some(ItchOrderView { stock, shares })
    }
}

/// Decodes a frame with the layout `S`.
pub fn decode<'a, S: FieldSpec<'a>>(raw: &'a [u8]) -> (r: Option<S::View>)
    requires
        S::parse_ok(raw@),
    ensures
        S::parse_rel(raw@, r),
{
    S::parse(raw)
}

/// An event type with a static name.
pub trait Event {
    fn kind() -> &'static str;
}

#[derive(Debug, Clone)]
pub struct FillEvent {
    pub order_id: u64,
    pub px: i64,
}

impl Event for FillEvent {
    fn kind() -> &'static str {
        "fill"
    }
}

#[derive(Debug, Clone)]
pub struct TickEvent {
    pub px: i64,
}

impl Event for TickEvent {
    fn kind() -> &'static str {
        "tick"
    }
}

/// Receives events of type `E`.
pub trait Handler<E: Event>: Sized {
    /// The handler after it has received `e`.
    spec fn after_event(&self, e: E) -> Self;

    fn on_event(&mut self, e: &E)
        ensures
            *final(self) == old(self).after_event(*e),
    ;
}

/// A handler that accepts every event and keeps nothing.
pub struct LoggingHandler;

impl<E: Event> Handler<E> for LoggingHandler {
    open spec fn after_event(&self, e: E) -> Self {
        LoggingHandler
    }

    fn on_event(&mut self, e: &E) {
    }
}

/// Forwards each published event to its handler.
pub struct Bus<H> {
    handler: H,
}

impl<H> Bus<H> {
    pub closed spec fn handler(&self) -> H {
        self.handler
    }

    pub fn new(handler: H) -> (r: Self)
        ensures
            r.handler() == handler,
    {
        Bus { handler }
    }

    /// Hands `e` to the handler, once.
    pub fn publish<E: Event>(&mut self, e: &E) where H: Handler<E>
        ensures
            final(self).handler() == old(self).handler().after_event(*e),
    {
        self.handler.on_event(e);
    }
}

/// Latency histogram with `N` upper bucket bounds and an overflow counter.
pub struct Histogram<const N: usize> {
    bounds_ns: [u64; N],
    counts: Vec<u64>,
    overflow: u64,
}

/// Index of the first bound not below `sample`, if any.
pub open spec fn first_bucket(bounds: Seq<u64>, sample: u64) -> Option<int> {
    if exists|i: int| 0 <= i < bounds.len() && sample <= bounds[i] {
        Some(choose|i: int| 0 <= i < bounds.len() && sample <= bounds[i]
            && forall|j: int| 0 <= j < i ==> sample > bounds[j])
    } else {
        None
    }
}

impl<const N: usize> Histogram<N> {
    pub closed spec fn wf(&self) -> bool {
        self.counts@.len() == N
    }

    pub closed spec fn bounds(&self) -> Seq<u64> {
        self.bounds_ns@
    }

    pub closed spec fn counts(&self) -> Seq<u64> {
        self.counts@
    }

    pub closed spec fn overflow_count(&self) -> u64 {
        self.overflow
    }

    pub fn new(bounds_ns: [u64; N]) -> (r: Self)
        ensures
            r.wf(),
            r.bounds() == bounds_ns@,
            r.counts() == Seq::new(N as nat, |i: int| 0u64),
            r.overflow_count() == 0,
    {
        let mut counts: Vec<u64> = Vec::new();
        let mut i: usize = 0;
        while i < N
            invariant
                i <= N,
                counts@ == Seq::new(i as nat, |k: int| 0u64),
            decreases N - i,
        {
            counts.push(0);
            i = i + 1;
        }
        Histogram { bounds_ns, counts, overflow: 0 }
    }

    /// Counts a sample in the first bucket whose bound is not below it, or as overflow.
    pub fn record(&mut self, sample_ns: u64)
        requires
            old(self).wf(),
            forall|i: int| 0 <= i < N ==> old(self).counts()[i] < u64::MAX,
            old(self).overflow_count() < u64::MAX,
        ensures
            final(self).wf(),
            final(self).bounds() == old(self).bounds(),
            match first_bucket(old(self).bounds(), sample_ns) {
                Some(i) => final(self).counts() == old(self).counts().update(i, (old(self).counts()[i] + 1) as u64)
                    && final(self).overflow_count() == old(self).overflow_count(),
                None => final(self).counts() == old(self).counts()
                    && final(self).overflow_count() == old(self).overflow_count() + 1,
            },
    {
        assert forall|j: int| 0 <= j < N implies self.counts@[j] < u64::MAX by {
            assert(self.counts()[j] < u64::MAX);
        }
        let mut i: usize = 0;
        while i < N
            invariant
                i <= N,
                self.counts@ == old(self).counts@,
                self.bounds_ns@ == old(self).bounds_ns@,
                self.overflow == old(self).overflow,
                self.counts@.len() == N,
                forall|j: int| 0 <= j < N ==> self.counts@[j] < u64::MAX,
                forall|j: int| 0 <= j < i ==> sample_ns > self.bounds_ns@[j],
            decreases N - i,
        {
            if sample_ns <= self.bounds_ns[i] {
                let c = self.counts[i];
                self.counts.set(i, c + 1);
                proof {
                    let b = old(self).bounds_ns@;
                    assert(exists|k: int| 0 <= k < b.len() && sample_ns <= b[k]);
                    let w = first_bucket(b, sample_ns)->Some_0;
                    assert(w == i as int) by {
                        if w < i {
                        } else if w > i {
                        }
                    }
                }
                return;
            }
            i = i + 1;
        }
        self.overflow = self.overflow + 1;
    }

    pub fn bucket(&self, i: usize) -> (r: u64)
        requires
            self.wf(),
            i < N,
        ensures
            r == self.counts()[i as int],
    {
        self.counts[i]
    }

    pub fn overflow(&self) -> (r: u64)
        ensures
            r == self.overflow_count(),
    {
        self.overflow
    }
}

/// A call on a bounded queue: a push of a value, or a pop.
pub enum QueueOp<T> {
    Push(T),
    Pop,
}

/// A queue of capacity `cap` run through `ops` from empty: what it holds, the values
/// it accepted, and the values its pops returned, each in order.
pub open spec fn queue_run<T>(cap: nat, ops: Seq<QueueOp<T>>) -> (Seq<T>, Seq<T>, Seq<T>)
    decreases ops.len(),
{
    if ops.len() == 0 {
        (Seq::empty(), Seq::empty(), Seq::empty())
    } else {
        let (held, accepted, popped) = queue_run(cap, ops.drop_last());
        match ops.last() {
            QueueOp::Push(v) => if held.len() < cap {
                (held.push(v), accepted.push(v), popped)
            } else {
                (held, accepted, popped)
            },
            QueueOp::Pop => if held.len() > 0 {
                (held.drop_first(), accepted, popped.push(held[0]))
            } else {
                (held, accepted, popped)
            },
        }
    }
}

/// Over any calls, a bounded queue is first in, first out: the values popped followed by
/// the values held are the values accepted, so it holds accepted pushes minus successful
/// pops, never more than its capacity.
pub proof fn lemma_queue_fifo<T>(cap: nat, ops: Seq<QueueOp<T>>)
    ensures
        queue_run(cap, ops).2 + queue_run(cap, ops).0 == queue_run(cap, ops).1,
        queue_run(cap, ops).0.len() == queue_run(cap, ops).1.len() - queue_run(cap, ops).2.len(),
        queue_run(cap, ops).0.len() <= cap,
    decreases ops.len(),
{
    if ops.len() > 0 {
        lemma_queue_fifo(cap, ops.drop_last());
        let (held, accepted, popped) = queue_run(cap, ops.drop_last());
        match ops.last() {
            QueueOp::Push(v) => {
                if held.len() < cap {
                    assert(popped + held.push(v) =~= (popped + held).push(v));
                }
            },
            QueueOp::Pop => {
                if held.len() > 0 {
                    assert(popped.push(held[0]) + held.drop_first() =~= popped + held);
                }
            },
        }
    }
}

/// Bucket counts and overflow after recording `samples` into a new histogram.
pub open spec fn hist_after(bounds: Seq<u64>, samples: Seq<u64>) -> (Seq<int>, int)
    decreases samples.len(),
{
    if samples.len() == 0 {
        (Seq::new(bounds.len(), |i: int| 0int), 0)
    } else {
        let prev = hist_after(bounds, samples.drop_last());
        match first_bucket(bounds, samples.last()) {
            Some(i) => (prev.0.update(i, prev.0[i] + 1), prev.1),
            None => (prev.0, prev.1 + 1),
        }
    }
}

/// How many of the samples land in bucket `b`, or above every bound for `None`.
pub open spec fn landing(bounds: Seq<u64>, samples: Seq<u64>, b: Option<int>) -> int
    decreases samples.len(),
{
    if samples.len() == 0 {
        0
    } else {
        landing(bounds, samples.drop_last(), b) + if first_bucket(bounds, samples.last()) == b { 1int } else { 0 }
    }
}

/// The sum of a sequence of counts.
pub open spec fn sum_counts(s: Seq<int>) -> int
    decreases s.len(),
{
    if s.len() == 0 {
        0
    } else {
        sum_counts(s.drop_last()) + s.last()
    }
}

proof fn lemma_sum_counts_update(s: Seq<int>, i: int, v: int)
    requires
        0 <= i < s.len(),
    ensures
        sum_counts(s.update(i, v)) == sum_counts(s) - s[i] + v,
    decreases s.len(),
{
    if i < s.len() - 1 {
        lemma_sum_counts_update(s.drop_last(), i, v);
        assert(s.update(i, v).drop_last() =~= s.drop_last().update(i, v));
    } else {
        assert(s.update(i, v).drop_last() =~= s.drop_last());
    }
}

proof fn lemma_sum_counts_zero(n: nat)
    ensures
        sum_counts(Seq::new(n, |i: int| 0int)) == 0,
    decreases n,
{
    if n > 0 {
        lemma_sum_counts_zero((n - 1) as nat);
        assert(Seq::new(n, |i: int| 0int).drop_last() =~= Seq::new((n - 1) as nat, |i: int| 0int));
    }
}

proof fn lemma_first_bucket_range(bounds: Seq<u64>, sample: u64)
    ensures
        first_bucket(bounds, sample) matches Some(i) ==> 0 <= i < bounds.len(),
{
    if exists|i: int| 0 <= i < bounds.len() && sample <= bounds[i] {
        lemma_first_fit(bounds, sample, 0);
    }
}

proof fn lemma_first_fit(bounds: Seq<u64>, sample: u64, k: int)
    requires
        0 <= k <= bounds.len(),
        forall|j: int| 0 <= j < k ==> sample > bounds[j],
        exists|i: int| k <= i < bounds.len() && sample <= bounds[i],
    ensures
        exists|i: int| 0 <= i < bounds.len() && sample <= bounds[i] && forall|j: int| 0 <= j < i ==> sample > bounds[j],
    decreases bounds.len() - k,
{
    if sample <= bounds[k] {
        assert(0 <= k < bounds.len() && sample <= bounds[k] && forall|j: int| 0 <= j < k ==> sample > bounds[j]);
    } else {
        lemma_first_fit(bounds, sample, k + 1);
    }
}

/// Every sample is counted once: bucket `i` holds the samples whose first fitting bound
/// is the `i`-th, the overflow holds those above every bound, and together they count
/// all the samples.
pub proof fn lemma_hist_after(bounds: Seq<u64>, samples: Seq<u64>)
    ensures
        hist_after(bounds, samples).0.len() == bounds.len(),
        forall|i: int| 0 <= i < bounds.len() ==> #[trigger] hist_after(bounds, samples).0[i] == landing(bounds, samples, Some(i)),
        hist_after(bounds, samples).1 == landing(bounds, samples, None),
        hist_after(bounds, samples).1 + sum_counts(hist_after(bounds, samples).0) == samples.len(),
    decreases samples.len(),
{
    if samples.len() == 0 {
        lemma_sum_counts_zero(bounds.len());
    } else {
        let init = samples.drop_last();
        lemma_hist_after(bounds, init);
        lemma_first_bucket_range(bounds, samples.last());
        let prev = hist_after(bounds, init);
        match first_bucket(bounds, samples.last()) {
            Some(b) => {
                lemma_sum_counts_update(prev.0, b, prev.0[b] + 1);
            },
            None => {},
        }
    }
}

} // verus!
