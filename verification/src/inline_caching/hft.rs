//! Trading-side inline caches: symbol metadata, venue handlers, book update paths,
//! generation-guarded risk limits, feed normalisers, signal handlers and price bands.
//! Each cache answers exactly as the table behind it would.
use std::collections::HashMap;
use vstd::prelude::*;

verus! {

broadcast use vstd::std_specs::hash::group_hash_axioms;

pub type SymbolId = u32;

pub type Px = i64;

pub type Qty = i64;

/// The map built by inserting `entries` in order; later entries win.
pub open spec fn map_of_entries<V>(entries: Seq<(u32, V)>) -> Map<u32, V>
    decreases entries.len(),
{
    if entries.len() == 0 {
        Map::empty()
    } else {
        map_of_entries(entries.drop_last()).insert(entries.last().0, entries.last().1)
    }
}

/// `Some(m[k])` when `m` holds `k`.
pub open spec fn map_get<V>(m: Map<u32, V>, k: u32) -> Option<V> {
    if m.dom().contains(k) {
        Some(m[k])
    } else {
        None
    }
}

/// Builds a hash table from `(key, value)` pairs, later pairs winning.
fn table_from<V: Copy>(entries: &[(u32, V)]) -> (t: HashMap<u32, V>)
    ensures
        t@ == map_of_entries(entries@),
{
    let mut table: HashMap<u32, V> = HashMap::new();
    let mut i: usize = 0;
    while i < entries.len()
        invariant
            i <= entries@.len(),
            table@ == map_of_entries(entries@.subrange(0, i as int)),
        decreases entries@.len() - i,
    {
        let (s, m) = entries[i];
        table.insert(s, m);
        proof {
            assert(entries@.subrange(0, i + 1).drop_last() == entries@.subrange(0, i as int));
        }
        i = i + 1;
    }
    assert(entries@.subrange(0, entries@.len() as int) == entries@);
    table
}

#[derive(Clone, Copy, Debug)]
pub struct Meta {
    pub tick_size: Px,
    pub lot_size: Qty,
}

/// Symbol metadata lookups that remember the last symbol asked for.
pub struct SymbolMetaCache {
    table: HashMap<SymbolId, Meta>,
    last_sym: Option<SymbolId>,
    last_meta: Meta,
    pub hits: u64,
    pub misses: u64,
}

impl SymbolMetaCache {
    pub closed spec fn table(&self) -> Map<SymbolId, Meta> {
        self.table@
    }

    pub closed spec fn hits_count(&self) -> u64 {
        self.hits
    }

    pub closed spec fn misses_count(&self) -> u64 {
        self.misses
    }

    /// The remembered symbol always carries the table's current metadata.
    pub closed spec fn wf(&self) -> bool {
        self.last_sym matches Some(s) ==> self.table@.dom().contains(s) && self.table@[s] == self.last_meta
    }

    pub fn new(entries: &[(SymbolId, Meta)]) -> (r: Self)
        ensures
            r.wf(),
            r.table() == map_of_entries(entries@),
            r.hits_count() == 0 && r.misses_count() == 0,
    {
        let table = table_from(entries);
        SymbolMetaCache { table, last_sym: None, last_meta: Meta { tick_size: 0, lot_size: 0 }, hits: 0, misses: 0 }
    }

    /// The table's metadata for `sym`, if any.
    pub fn meta(&mut self, sym: SymbolId) -> (r: Option<Meta>)
        requires
            old(self).wf(),
            old(self).hits_count() < u64::MAX,
            old(self).misses_count() < u64::MAX,
        ensures
            final(self).wf(),
            r == map_get(old(self).table(), sym),
            final(self).table() == old(self).table(),
            final(self).hits_count() + final(self).misses_count() == old(self).hits_count() + old(self).misses_count() + 1,
    {
        if self.last_sym == Some(sym) {
            self.hits = self.hits + 1;
            return Some(self.last_meta);
        }
        self.misses = self.misses + 1;
        let m = match self.table.get(&sym) {
            Some(m) => *m,
            None => return None,
        };
        self.last_sym = Some(sym);
        self.last_meta = m;
        Some(m)
    }

    /// Replaces the metadata of `sym` and forgets it if it was remembered.
    pub fn update_meta(&mut self, sym: SymbolId, meta: Meta)
        requires
            old(self).wf(),
        ensures
            final(self).wf(),
            final(self).table() == old(self).table().insert(sym, meta),
            final(self).hits_count() == old(self).hits_count(),
            final(self).misses_count() == old(self).misses_count(),
    {
        self.table.insert(sym, meta);
        if self.last_sym == Some(sym) {
            self.last_sym = None;
        }
    }
}

#[derive(Clone, Copy)]
pub enum MsgKind {
    Trade,
    Book,
    Heartbeat,
}

/// The decoders a venue tag can select.
#[derive(Clone, Copy, PartialEq, Eq, Structural)]
enum Decoder {
    Trade,
    Book,
    Heartbeat,
}

/// Bytes consumed by the decoder of `tag`, or `None` for an unknown tag.
pub open spec fn dispatch_spec(tag: u8, len: nat) -> Option<usize> {
    if tag == 1 {
        Some(if len + 1 > usize::MAX { usize::MAX } else { (len + 1) as usize })
    } else if tag == 2 {
        Some(if len + 2 > usize::MAX { usize::MAX } else { (len + 2) as usize })
    } else if tag == 3 {
        Some(len as usize)
    } else {
        None
    }
}

/// Dispatches venue messages, remembering the handler of the last tag.
pub struct HandlerIc {
    last_tag: Option<u8>,
    last_handler: Decoder,
    pub hits: u64,
    pub misses: u64,
}

impl HandlerIc {
    pub closed spec fn hits_count(&self) -> u64 {
        self.hits
    }

    pub closed spec fn misses_count(&self) -> u64 {
        self.misses
    }

    /// The tag whose handler is remembered.
    pub closed spec fn cached_tag(&self) -> Option<u8> {
        self.last_tag
    }

    pub closed spec fn wf(&self) -> bool {
        self.last_tag matches Some(t) ==> (t == 1 && self.last_handler == Decoder::Trade) || (t == 2
            && self.last_handler == Decoder::Book) || (t == 3 && self.last_handler == Decoder::Heartbeat)
    }

    /// An empty cache: no tag remembered, no hits, no misses.
    pub fn new() -> (r: Self)
        ensures
            r.wf(),
            r.cached_tag() is None,
            r.hits_count() == 0 && r.misses_count() == 0,
    {
        HandlerIc { last_tag: None, last_handler: Decoder::Heartbeat, hits: 0, misses: 0 }
    }

    fn run(h: Decoder, payload: &[u8]) -> (r: usize)
        ensures
            h == Decoder::Trade ==> Some(r) == dispatch_spec(1, payload@.len()),
            h == Decoder::Book ==> Some(r) == dispatch_spec(2, payload@.len()),
            h == Decoder::Heartbeat ==> Some(r) == dispatch_spec(3, payload@.len()),
    {
        match h {
            Decoder::Trade => payload.len().saturating_add(1),
            Decoder::Book => payload.len().saturating_add(2),
            Decoder::Heartbeat => payload.len(),
        }
    }

    /// Decodes `payload` with the handler of `tag`; unknown tags give `None`.
    pub fn dispatch(&mut self, tag: u8, payload: &[u8]) -> (r: Option<usize>)
        requires
            old(self).wf(),
            old(self).hits_count() < u64::MAX,
            old(self).misses_count() < u64::MAX,
        ensures
            final(self).wf(),
            r == dispatch_spec(tag, payload@.len()),
            old(self).cached_tag() == Some(tag) ==> final(self).hits_count() == old(self).hits_count() + 1
                && final(self).misses_count() == old(self).misses_count()
                && final(self).cached_tag() == old(self).cached_tag(),
            old(self).cached_tag() != Some(tag) ==> final(self).misses_count() == old(self).misses_count() + 1
                && final(self).hits_count() == old(self).hits_count()
                && final(self).cached_tag() == (if 1 <= tag <= 3 { Some(tag) } else { old(self).cached_tag() }),
    {
        if self.last_tag == Some(tag) {
            self.hits = self.hits + 1;
            return Some(Self::run(self.last_handler, payload));
        }
        self.misses = self.misses + 1;
        let h = if tag == 1 {
            Decoder::Trade
        } else if tag == 2 {
            Decoder::Book
        } else if tag == 3 {
            Decoder::Heartbeat
        } else {
            return None;
        };
        self.last_tag = Some(tag);
        self.last_handler = h;
        Some(Self::run(h, payload))
    }
}

#[derive(Clone, Copy, PartialEq, Eq, Hash, Debug, Structural)]
pub struct UpdateShape {
    pub side: u8,
    pub action: u8,
}

/// The book path of an update shape: `side·3 + action`.
pub open spec fn path_of(shape: UpdateShape) -> int {
    shape.side * 3 + shape.action
}

/// A two-slot polymorphic cache of book update paths.
pub struct BookPic {
    slots: [Option<(UpdateShape, u8)>; 2],
    len: usize,
    pub hits: u64,
    pub misses: u64,
}

impl BookPic {
    pub closed spec fn hits_count(&self) -> u64 {
        self.hits
    }

    pub closed spec fn misses_count(&self) -> u64 {
        self.misses
    }

    /// The shapes held, the most recently hit first.
    pub closed spec fn cached_shapes(&self) -> Seq<UpdateShape> {
        Seq::new(self.len as nat, |i: int| (self.slots@[i]->0).0)
    }

    pub closed spec fn wf(&self) -> bool {
        &&& self.len <= 2
        &&& forall|i: int| 0 <= i < self.len ==> ((#[trigger] self.slots@[i]) matches Some(e) && e.1 == path_of(e.0))
        &&& self.cached_shapes().no_duplicates()
    }

    /// An empty cache: no shape held, no hits, no misses.
    pub fn new() -> (r: Self)
        ensures
            r.wf(),
            r.cached_shapes() == Seq::<UpdateShape>::empty(),
            r.hits_count() == 0 && r.misses_count() == 0,
    {
        let r = BookPic { slots: [None, None], len: 0, hits: 0, misses: 0 };
        assert(r.cached_shapes() =~= Seq::<UpdateShape>::empty());
        r
    }

    /// The path index of `shape`, served from the slots when cached. A hit moves the
    /// shape to the first slot; a miss fills the next free slot, or replaces the second.
    pub fn path(&mut self, shape: UpdateShape) -> (r: u8)
        requires
            old(self).wf(),
            old(self).hits_count() < u64::MAX,
            old(self).misses_count() < u64::MAX,
            path_of(shape) <= 255,
        ensures
            final(self).wf(),
            r == path_of(shape),
            ({
                let c = old(self).cached_shapes();
                &&& c.contains(shape) ==> final(self).hits_count() == old(self).hits_count() + 1
                    && final(self).misses_count() == old(self).misses_count()
                    && final(self).cached_shapes() == c.update(0, shape).update(c.index_of(shape), c[0])
                &&& !c.contains(shape) ==> final(self).misses_count() == old(self).misses_count() + 1
                    && final(self).hits_count() == old(self).hits_count()
                    && final(self).cached_shapes() == (if c.len() < 2 { c.push(shape) } else { c.update(1, shape) })
            }),
    {
        let ghost c = self.cached_shapes();
        let mut i: usize = 0;
        while i < self.len
            invariant
                self.wf(),
                self.cached_shapes() == c,
                i <= self.len,
                self.hits == old(self).hits,
                self.misses == old(self).misses,
                self.slots == old(self).slots,
                self.len == old(self).len,
                self.hits < u64::MAX,
                path_of(shape) <= 255,
                forall|k: int| 0 <= k < i ==> c[k] != shape,
            decreases self.len - i,
        {
            assert(c[i as int] == (self.slots@[i as int]->0).0);
            if let Some((s, idx)) = self.slots[i] {
                if s == shape {
                    self.hits = self.hits + 1;
                    proof {
                        assert(c.contains(shape));
                        assert(c[c.index_of(shape)] == shape);
                        assert(c.index_of(shape) == i as int);
                    }
                    if i > 0 {
                        let first = self.slots[0];
                        self.slots[0] = self.slots[i];
                        self.slots[i] = first;
                    }
                    assert(self.cached_shapes() =~= c.update(0, shape).update(i as int, c[0]));
                    return idx;
                }
            }
            i = i + 1;
        }
        assert(!c.contains(shape));
        self.misses = self.misses + 1;
        let idx = shape.side * 3 + shape.action;
        if self.len < 2 {
            self.slots[self.len] = Some((shape, idx));
            self.len = self.len + 1;
            assert(self.cached_shapes() =~= c.push(shape));
        } else {
            self.slots[1] = Some((shape, idx));
            assert(self.cached_shapes() =~= c.update(1, shape));
        }
        idx
    }
}

#[derive(Clone, Copy, Debug)]
pub struct Limits {
    pub max_order: Qty,
    pub max_pos: Qty,
    pub gen: u64,
}

/// A lookup of `sym` is served from the cached copy: the copy is of `sym` and the table
/// still holds `sym` at the copy's generation.
pub open spec fn risk_hit(cached: Option<(SymbolId, Limits)>, table: Map<SymbolId, Limits>, sym: SymbolId) -> bool {
    cached matches Some(e) && e.0 == sym && table.contains_key(sym) && table[sym].gen == e.1.gen
}

/// Risk limits cached per symbol and revalidated by generation.
pub struct RiskIc {
    table: HashMap<SymbolId, Limits>,
    cached_sym: Option<SymbolId>,
    cached: Limits,
    pub hits: u64,
    pub misses: u64,
}

impl RiskIc {
    pub closed spec fn table(&self) -> Map<SymbolId, Limits> {
        self.table@
    }

    pub closed spec fn hits_count(&self) -> u64 {
        self.hits
    }

    pub closed spec fn misses_count(&self) -> u64 {
        self.misses
    }

    /// The symbol and the copy of its limits that the cache holds.
    pub closed spec fn cached_entry(&self) -> Option<(SymbolId, Limits)> {
        match self.cached_sym {
            Some(s) => Some((s, self.cached)),
            None => None,
        }
    }

    /// A cached entry stays in the table with a generation no older than the copy, and an
    /// equal generation means an equal entry.
    pub closed spec fn wf(&self) -> bool {
        self.cached_sym matches Some(s) ==> {
            &&& self.table@.dom().contains(s)
            &&& self.table@[s].gen >= self.cached.gen
            &&& self.table@[s].gen == self.cached.gen ==> self.table@[s] == self.cached
        }
    }

    pub fn new(entries: &[(SymbolId, Limits)]) -> (r: Self)
        ensures
            r.wf(),
            r.table() == map_of_entries(entries@),
            r.cached_entry() is None,
            r.hits_count() == 0 && r.misses_count() == 0,
    {
        let table = table_from(entries);
        RiskIc { table, cached_sym: None, cached: Limits { max_order: 0, max_pos: 0, gen: 0 }, hits: 0, misses: 0 }
    }

    /// The table's limits for `sym`, if any.
    pub fn limits(&mut self, sym: SymbolId) -> (r: Option<Limits>)
        requires
            old(self).wf(),
            old(self).hits_count() < u64::MAX,
            old(self).misses_count() < u64::MAX,
        ensures
            final(self).wf(),
            r == map_get(old(self).table(), sym),
            final(self).table() == old(self).table(),
            risk_hit(old(self).cached_entry(), old(self).table(), sym) ==> final(self).hits_count() == old(self).hits_count() + 1
                && final(self).misses_count() == old(self).misses_count()
                && final(self).cached_entry() == old(self).cached_entry(),
            !risk_hit(old(self).cached_entry(), old(self).table(), sym) ==> final(self).misses_count() == old(self).misses_count() + 1
                && final(self).hits_count() == old(self).hits_count()
                && final(self).cached_entry() == (if old(self).table().contains_key(sym) {
                    Some((sym, old(self).table()[sym]))
                } else {
                    old(self).cached_entry()
                }),
    {
        if let Some(s) = self.cached_sym {
            if s == sym {
                if let Some(fresh) = self.table.get(&sym) {
                    if fresh.gen == self.cached.gen {
                        self.hits = self.hits + 1;
                        return Some(self.cached);
                    }
                }
            }
        }
        self.misses = self.misses + 1;
        let l = match self.table.get(&sym) {
            Some(l) => *l,
            None => return None,
        };
        self.cached_sym = Some(sym);
        self.cached = l;
        Some(l)
    }

    /// Stores new limits for `sym` with the next generation (1 for a new symbol).
    pub fn bump(&mut self, sym: SymbolId, lim: Limits)
        requires
            old(self).wf(),
            old(self).table().dom().contains(sym) ==> old(self).table()[sym].gen < u64::MAX,
        ensures
            final(self).wf(),
            final(self).table() == old(self).table().insert(sym, Limits {
                gen: if old(self).table().dom().contains(sym) { (old(self).table()[sym].gen + 1) as u64 } else { 1 },
                ..lim
            }),
            final(self).cached_entry() == old(self).cached_entry(),
            final(self).hits_count() == old(self).hits_count(),
            final(self).misses_count() == old(self).misses_count(),
    {
        let mut lim = lim;
        lim.gen = match self.table.get(&sym) {
            Some(l) => l.gen + 1,
            None => 1,
        };
        self.table.insert(sym, lim);
    }
}

/// The normalisers a feed source can select.
#[derive(Clone, Copy, PartialEq, Eq, Structural)]
enum Normalizer {
    Binance,
    Cme,
}

/// Normalised price of a raw feed price: Binance as is, CME times four.
pub open spec fn normalize_spec(src: u8, raw: i64) -> Option<i64> {
    if src == 1 {
        Some(raw)
    } else if src == 2 {
        Some((raw * 4) as i64)
    } else {
        None
    }
}

/// Normalises feed prices, remembering the last source.
pub struct FeedIc {
    last_src: Option<u8>,
    norm: Normalizer,
    pub hits: u64,
    pub misses: u64,
}

impl FeedIc {
    pub closed spec fn hits_count(&self) -> u64 {
        self.hits
    }

    pub closed spec fn misses_count(&self) -> u64 {
        self.misses
    }

    /// The source whose normaliser is remembered.
    pub closed spec fn cached_source(&self) -> Option<u8> {
        self.last_src
    }

    pub closed spec fn wf(&self) -> bool {
        self.last_src matches Some(s) ==> (s == 1 && self.norm == Normalizer::Binance) || (s == 2 && self.norm
            == Normalizer::Cme)
    }

    /// A cache that remembers no source yet.
    pub fn new() -> (r: Self)
        ensures
            r.wf(),
            r.cached_source() is None,
            r.hits_count() == 0 && r.misses_count() == 0,
    {
        FeedIc { last_src: None, norm: Normalizer::Binance, hits: 0, misses: 0 }
    }

    pub fn normalize(&mut self, src: u8, raw: i64) -> (r: Option<i64>)
        requires
            old(self).wf(),
            old(self).hits_count() < u64::MAX,
            old(self).misses_count() < u64::MAX,
            src == 2 ==> i64::MIN <= raw * 4 <= i64::MAX,
        ensures
            final(self).wf(),
            r == normalize_spec(src, raw),
            old(self).cached_source() == Some(src) ==> final(self).hits_count() == old(self).hits_count() + 1
                && final(self).misses_count() == old(self).misses_count()
                && final(self).cached_source() == old(self).cached_source(),
            old(self).cached_source() != Some(src) ==> final(self).misses_count() == old(self).misses_count() + 1
                && final(self).hits_count() == old(self).hits_count()
                && final(self).cached_source() == (if src == 1 || src == 2 { Some(src) } else { old(self).cached_source() }),
    {
        if self.last_src == Some(src) {
            self.hits = self.hits + 1;
            return Some(match self.norm {
                Normalizer::Binance => raw,
                Normalizer::Cme => raw * 4,
            });
        }
        self.misses = self.misses + 1;
        let f = if src == 1 {
            Normalizer::Binance
        } else if src == 2 {
            Normalizer::Cme
        } else {
            return None;
        };
        self.last_src = Some(src);
        self.norm = f;
        Some(match f {
            Normalizer::Binance => raw,
            Normalizer::Cme => raw * 4,
        })
    }
}

#[derive(Clone, Copy, PartialEq, Eq, Structural)]
pub enum Signal {
    Entry,
    Exit,
    Hedge,
    Cancel,
}

/// The handler reply for a signal.
pub open spec fn handle_spec(s: Signal) -> &'static str {
    match s {
        Signal::Entry => "entry",
        Signal::Exit => "exit",
        Signal::Hedge => "hedge",
        Signal::Cancel => "cancel",
    }
}

fn run_signal(h: Signal) -> (r: &'static str)
    ensures
        r == handle_spec(h),
{
    match h {
        Signal::Entry => "entry",
        Signal::Exit => "exit",
        Signal::Hedge => "hedge",
        Signal::Cancel => "cancel",
    }
}

/// Dispatches strategy signals, remembering the handler of the last one.
pub struct SignalIc {
    last: Option<Signal>,
    handler: Signal,
    pub hits: u64,
    pub misses: u64,
}

impl SignalIc {
    pub closed spec fn hits_count(&self) -> u64 {
        self.hits
    }

    pub closed spec fn misses_count(&self) -> u64 {
        self.misses
    }

    pub closed spec fn wf(&self) -> bool {
        self.last matches Some(s) ==> self.handler == s
    }

    pub fn new() -> (r: Self)
        ensures
            r.wf(),
            r.hits_count() == 0 && r.misses_count() == 0,
    {
        SignalIc { last: None, handler: Signal::Entry, hits: 0, misses: 0 }
    }

    pub fn handle(&mut self, s: Signal) -> (r: &'static str)
        requires
            old(self).wf(),
            old(self).hits_count() < u64::MAX,
            old(self).misses_count() < u64::MAX,
        ensures
            final(self).wf(),
            r == handle_spec(s),
    {
        if self.last == Some(s) {
            self.hits = self.hits + 1;
            return run_signal(self.handler);
        }
        self.misses = self.misses + 1;
        self.last = Some(s);
        self.handler = s;
        run_signal(s)
    }
}

#[derive(Clone, Copy)]
pub struct Band {
    pub lo: Px,
    pub hi: Px,
}

/// The band in force for `sym`: its table entry, or the empty band `[0, 0]`.
pub open spec fn band_of(t: Map<SymbolId, Band>, sym: SymbolId) -> Band {
    if t.dom().contains(sym) {
        t[sym]
    } else {
        Band { lo: 0, hi: 0 }
    }
}

/// Price-band checks that remember the band of the last symbol.
pub struct BandIc {
    table: HashMap<SymbolId, Band>,
    last: Option<(SymbolId, Band)>,
    pub hits: u64,
    pub rejects: u64,
}

impl BandIc {
    pub closed spec fn table(&self) -> Map<SymbolId, Band> {
        self.table@
    }

    pub closed spec fn hits_count(&self) -> u64 {
        self.hits
    }

    pub closed spec fn rejects_count(&self) -> u64 {
        self.rejects
    }

    pub closed spec fn wf(&self) -> bool {
        self.last matches Some(e) ==> e.1 == band_of(self.table@, e.0)
    }

    pub fn new(table: HashMap<SymbolId, Band>) -> (r: Self)
        ensures
            r.wf(),
            r.table() == table@,
            r.hits_count() == 0 && r.rejects_count() == 0,
    {
        BandIc { table, last: None, hits: 0, rejects: 0 }
    }

    /// Whether `px` lies inside the band of `sym`; a rejection is counted.
    pub fn accept(&mut self, sym: SymbolId, px: Px) -> (ok: bool)
        requires
            old(self).wf(),
            old(self).hits_count() < u64::MAX,
            old(self).rejects_count() < u64::MAX,
        ensures
            final(self).wf(),
            final(self).table() == old(self).table(),
            ok == (band_of(old(self).table(), sym).lo <= px <= band_of(old(self).table(), sym).hi),
            final(self).rejects_count() == old(self).rejects_count() + (if ok { 0int } else { 1 }),
    {
        let band = if let Some((s, b)) = self.last {
            if s == sym {
                self.hits = self.hits + 1;
                b
            } else {
                self.fetch(sym)
            }
        } else {
            self.fetch(sym)
        };
        let ok = px >= band.lo && px <= band.hi;
        if !ok {
            self.rejects = self.rejects + 1;
        }
        ok
    }

    fn fetch(&mut self, sym: SymbolId) -> (b: Band)
        ensures
            b == band_of(old(self).table@, sym),
            final(self).table@ == old(self).table@,
            final(self).last == Some((sym, b)),
            final(self).hits == old(self).hits,
            final(self).rejects == old(self).rejects,
    {
        let b = match self.table.get(&sym) {
            Some(b) => *b,
            None => Band { lo: 0, hi: 0 },
        };
        self.last = Some((sym, b));
        b
    }

    /// Replaces the band of `sym` and forgets it if it was remembered.
    pub fn widen(&mut self, sym: SymbolId, band: Band)
        requires
            old(self).wf(),
        ensures
            final(self).wf(),
            final(self).table() == old(self).table().insert(sym, band),
    {
        self.table.insert(sym, band);
        let same = match self.last {
            Some((s, _)) => s == sym,
            None => false,
        };
        if same {
            self.last = None;
        }
    }
}

} // verus!
