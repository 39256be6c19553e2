//! Chain-side inline caches: ABI selector decoders, token metadata, storage layouts,
//! event topics, call paths and per-chain encoders. Each answers as an uncached lookup
//! would.
use vstd::prelude::*;
use crate::bytes::{arr_eq, be_value, read_be};
use crate::inline_caching::strategies::{first_key_index, lemma_first_key_index};
use crate::assoc::lemma_first_key_index_spec;

verus! {

pub type Address = [u8; 20];

pub type Selector = [u8; 4];

pub type Topic0 = [u8; 32];

/// The decoders known for a selector.
#[derive(Clone, Copy, PartialEq, Eq, Structural)]
enum Decoder {
    Swap,
    Approve,
}

/// Selector of the swap call.
pub open spec fn swap_selector() -> Seq<u8> {
    seq![0x38u8, 0xed, 0x17, 0x39]
}

/// Selector of the approve call.
pub open spec fn approve_selector() -> Seq<u8> {
    seq![0x09u8, 0x5e, 0xa7, 0xb3]
}

/// The amount decoded from calldata: the low eight bytes of the first argument word for a
/// swap, of the second for an approve; `None` when the selector is unknown or the data short.
pub open spec fn decode_spec(data: Seq<u8>) -> Option<u64> {
    if data.len() < 4 {
        None
    } else if data.subrange(0, 4) == swap_selector() {
        if data.len() < 36 { None } else { Some(be_value(data.subrange(28, 36)) as u64) }
    } else if data.subrange(0, 4) == approve_selector() {
        if data.len() < 68 { None } else { Some(be_value(data.subrange(60, 68)) as u64) }
    } else {
        None
    }
}

fn run_decoder(d: Decoder, data: &[u8]) -> (r: Option<u64>)
    ensures
        d == Decoder::Swap ==> r == (if data@.len() < 36 { None } else { Some(be_value(data@.subrange(28, 36)) as u64) }),
        d == Decoder::Approve ==> r == (if data@.len() < 68 { None } else { Some(be_value(data@.subrange(60, 68)) as u64) }),
{
    match d {
        Decoder::Swap => {
            if data.len() < 36 {
                return None;
            }
            Some(read_be(data, 28, 8))
        },
        Decoder::Approve => {
            if data.len() < 68 {
                return None;
            }
            Some(read_be(data, 60, 8))
        },
    }
}

/// A selector with a registered decoder: swap or approve.
pub open spec fn known_selector(sel: Seq<u8>) -> bool {
    sel == swap_selector() || sel == approve_selector()
}

/// Calldata decoding that remembers the decoder of the last selector.
pub struct SelectorIc {
    table: Vec<(Selector, Decoder)>,
    last: Option<(Selector, Decoder)>,
    pub hits: u64,
    pub misses: u64,
}

impl SelectorIc {
    pub closed spec fn hits_count(&self) -> u64 {
        self.hits
    }

    pub closed spec fn misses_count(&self) -> u64 {
        self.misses
    }

    /// The selector whose decoder is remembered.
    pub closed spec fn cached_selector(&self) -> Option<Seq<u8>> {
        match self.last {
            Some(e) => Some(e.0@),
            None => None,
        }
    }

    /// The decoder registered for a selector.
    closed spec fn decoder_for(sel: Seq<u8>) -> Option<Decoder> {
        if sel == swap_selector() {
            Some(Decoder::Swap)
        } else if sel == approve_selector() {
            Some(Decoder::Approve)
        } else {
            None
        }
    }

    pub closed spec fn wf(&self) -> bool {
        &&& self.table@.len() == 2
        &&& self.table@[0].0@ == swap_selector() && self.table@[0].1 == Decoder::Swap
        &&& self.table@[1].0@ == approve_selector() && self.table@[1].1 == Decoder::Approve
        &&& self.last matches Some(e) ==> Self::decoder_for(e.0@) == Some(e.1)
    }

    /// A cache with the swap and approve decoders registered and nothing remembered.
    pub fn new() -> (r: Self)
        ensures
            r.wf(),
            r.cached_selector() is None,
            r.hits_count() == 0 && r.misses_count() == 0,
    {
        let mut table: Vec<(Selector, Decoder)> = Vec::new();
        table.push(([0x38, 0xed, 0x17, 0x39], Decoder::Swap));
        table.push(([0x09, 0x5e, 0xa7, 0xb3], Decoder::Approve));
        let r = SelectorIc { table, last: None, hits: 0, misses: 0 };
        assert(r.cached_selector() is None);
        assert(r.table@[0].0@ =~= swap_selector());
        assert(r.table@[1].0@ =~= approve_selector());
        r
    }

    fn lookup(&self, sel: &Selector) -> (r: Option<Decoder>)
        requires
            self.wf(),
        ensures
            r == Self::decoder_for(sel@),
    {
        let mut i: usize = 0;
        while i < self.table.len()
            invariant
                self.wf(),
                i <= 2,
                forall|k: int| 0 <= k < i ==> self.table@[k].0@ != sel@,
            decreases 2 - i,
        {
            if arr_eq(&self.table[i].0, sel) {
                return Some(self.table[i].1);
            }
            i = i + 1;
        }
        None
    }

    /// The amount carried by `calldata`, as `decode_spec` describes it.
    pub fn decode(&mut self, calldata: &[u8]) -> (r: Option<u64>)
        requires
            old(self).wf(),
            old(self).hits_count() < u64::MAX,
            old(self).misses_count() < u64::MAX,
        ensures
            final(self).wf(),
            r == decode_spec(calldata@),
            calldata@.len() < 4 ==> final(self).hits_count() == old(self).hits_count()
                && final(self).misses_count() == old(self).misses_count()
                && final(self).cached_selector() == old(self).cached_selector(),
            calldata@.len() >= 4 ==> ({
                let sel = calldata@.subrange(0, 4);
                &&& old(self).cached_selector() == Some(sel) ==> final(self).hits_count() == old(self).hits_count() + 1
                    && final(self).misses_count() == old(self).misses_count()
                    && final(self).cached_selector() == old(self).cached_selector()
                &&& old(self).cached_selector() != Some(sel) ==> final(self).misses_count() == old(self).misses_count() + 1
                    && final(self).hits_count() == old(self).hits_count()
                    && final(self).cached_selector() == (if known_selector(sel) { Some(sel) } else { old(self).cached_selector() })
            }),
    {
        if calldata.len() < 4 {
            return None;
        }
        let sel: Selector = [calldata[0], calldata[1], calldata[2], calldata[3]];
        assert(sel@ =~= calldata@.subrange(0, 4));
        proof {
            if let Some(e) = self.last {
                if e.0@ == sel@ {
                    assert(e.0 =~= sel);
                }
            }
        }
        let decoder = if let Some((s, f)) = self.last {
            if arr_eq(&s, &sel) {
                self.hits = self.hits + 1;
                f
            } else {
                self.misses = self.misses + 1;
                let f = match self.lookup(&sel) {
                    Some(f) => f,
                    None => return None,
                };
                self.last = Some((sel, f));
                f
            }
        } else {
            self.misses = self.misses + 1;
            let f = match self.lookup(&sel) {
                Some(f) => f,
                None => return None,
            };
            self.last = Some((sel, f));
            f
        };
        run_decoder(decoder, calldata)
    }
}

#[derive(Clone, Copy)]
pub struct TokenMeta {
    pub decimals: u8,
    pub layout_gen: u64,
}

/// Decimals an RPC reports for a token: 6 when its last address byte is 1, else 18.
pub open spec fn rpc_decimals(token: Address) -> u8 {
    if token@[19] == 1 {
        6
    } else {
        18
    }
}

/// Token metadata fetched once per token and remembered for the last token.
pub struct TokenIc {
    table: Vec<(Address, TokenMeta)>,
    last: Option<(Address, TokenMeta)>,
    pub rpc_calls: u64,
    pub hits: u64,
}

/// Whether some entry of the table carries `t`.
pub open spec fn table_has(table: Seq<(Address, TokenMeta)>, t: Address) -> bool {
    exists|i: int| 0 <= i < table.len() && (#[trigger] table[i]).0@ == t@
}

proof fn lemma_table_has_keys(a: Seq<(Address, TokenMeta)>, b: Seq<(Address, TokenMeta)>, t: Address)
    requires
        a.len() <= b.len(),
        forall|i: int| 0 <= i < a.len() ==> (#[trigger] b[i]).0 == a[i].0,
        table_has(a, t),
    ensures
        table_has(b, t),
{
    let i = choose|i: int| 0 <= i < a.len() && (#[trigger] a[i]).0@ == t@;
    assert(b[i].0 == a[i].0);
}

impl TokenIc {
    pub closed spec fn rpc_count(&self) -> u64 {
        self.rpc_calls
    }

    pub closed spec fn hits_count(&self) -> u64 {
        self.hits
    }

    /// The fetched metadata, in the order it was fetched.
    pub closed spec fn entries(&self) -> Seq<(Address, TokenMeta)> {
        self.table@
    }

    /// The token remembered from the last lookup, with its metadata.
    pub closed spec fn last_seen(&self) -> Option<(Address, TokenMeta)> {
        self.last
    }

    /// Whether metadata for `token` has been fetched.
    pub closed spec fn known(&self, token: Address) -> bool {
        table_has(self.table@, token)
    }

    pub closed spec fn wf(&self) -> bool {
        &&& forall|i: int| 0 <= i < self.table@.len() ==> (#[trigger] self.table@[i]).1.decimals == rpc_decimals(self.table@[i].0)
        &&& self.last matches Some(e) ==> e.1.decimals == rpc_decimals(e.0) && self.known(e.0)
    }

    pub fn new() -> (r: Self)
        ensures
            r.wf(),
            forall|t: Address| !r.known(t),
            r.rpc_count() == 0 && r.hits_count() == 0,
    {
        TokenIc { table: Vec::new(), last: None, rpc_calls: 0, hits: 0 }
    }

    fn fetch_rpc(&mut self, token: Address) -> (meta: TokenMeta)
        requires
            old(self).wf(),
            old(self).rpc_calls < u64::MAX,
        ensures
            final(self).wf(),
            meta.decimals == rpc_decimals(token),
            final(self).table@ == old(self).table@.push((token, meta)),
            final(self).rpc_calls == old(self).rpc_calls + 1,
            final(self).last == old(self).last,
            final(self).hits == old(self).hits,
    {
        self.rpc_calls = self.rpc_calls + 1;
        let meta = TokenMeta { decimals: if token[19] == 1 { 6 } else { 18 }, layout_gen: 1 };
        self.table.push((token, meta));
        proof {
            if let Some(e) = self.last {
                lemma_table_has_keys(old(self).table@, self.table@, e.0);
            }
        }
        meta
    }

    fn find(&self, token: &Address) -> (r: Option<TokenMeta>)
        requires
            self.wf(),
        ensures
            r is Some == self.known(*token),
            r matches Some(m) ==> m.decimals == rpc_decimals(*token),
    {
        let mut i: usize = 0;
        while i < self.table.len()
            invariant
                self.wf(),
                i <= self.table@.len(),
                forall|k: int| 0 <= k < i ==> (#[trigger] self.table@[k]).0@ != token@,
            decreases self.table@.len() - i,
        {
            if arr_eq(&self.table[i].0, token) {
                proof {
                    assert(self.table@[i as int].0 =~= *token);
                }
                return Some(self.table[i].1);
            }
            i = i + 1;
        }
        None
    }

    /// The token's decimals; an unknown token costs one RPC fetch.
    pub fn decimals(&mut self, token: Address) -> (r: u8)
        requires
            old(self).wf(),
            old(self).rpc_count() < u64::MAX,
            old(self).hits_count() < u64::MAX,
        ensures
            final(self).wf(),
            r == rpc_decimals(token),
            final(self).known(token),
            final(self).rpc_count() <= old(self).rpc_count() + 1,
            old(self).known(token) ==> final(self).rpc_count() == old(self).rpc_count(),
            forall|t: Address| old(self).known(t) ==> final(self).known(t),
    {
        if let Some((t, m)) = self.last {
            if arr_eq(&t, &token) {
                self.hits = self.hits + 1;
                proof {
                    assert(t =~= token);
                    lemma_table_has_keys(old(self).table@, self.table@, t);
                }
                return m.decimals;
            }
        }
        let meta = match self.find(&token) {
            Some(m) => m,
            None => {
                let m = self.fetch_rpc(token);
                proof {
                    assert(self.table@[self.table@.len() - 1].0 == token);
                    assert forall|t: Address| old(self).known(t) implies self.known(t) by {
                        lemma_table_has_keys(old(self).table@, self.table@, t);
                    }
                }
                m
            },
        };
        let ghost table_before = self.table@;
        self.last = Some((token, meta));
        proof {
            assert(self.table@ == table_before);
            assert(self.known(token));
        }
        meta.decimals
    }

    /// Marks a proxy upgrade: bumps the layout generation of the token's entry (held at
    /// `u64::MAX` once there) and forgets the token if it is the one remembered.
    pub fn on_upgrade(&mut self, token: Address)
        requires
            old(self).wf(),
        ensures
            final(self).wf(),
            final(self).entries() == upgrade_table(old(self).entries(), token),
            final(self).last_seen() == (if old(self).last_seen() matches Some(e) && e.0 == token {
                None
            } else {
                old(self).last_seen()
            }),
            forall|t: Address| final(self).known(t) == old(self).known(t),
            final(self).rpc_count() == old(self).rpc_count(),
            final(self).hits_count() == old(self).hits_count(),
    {
        match self.find_index(&token) {
            Some(i) => {
                let (a, m) = self.table[i];
                proof {
                    lemma_first_key_index_spec(self.table@, token);
                }
                let g = if m.layout_gen < u64::MAX { m.layout_gen + 1 } else { m.layout_gen };
                let ghost before = self.table@;
                self.table.set(i, (a, TokenMeta { decimals: m.decimals, layout_gen: g }));
                proof {
                    assert forall|k: int| 0 <= k < self.table@.len() implies (#[trigger] self.table@[k]).0 == before[k].0 by {}
                    if let Some(e) = self.last {
                        lemma_table_has_keys(before, self.table@, e.0);
                    }
                }
            },
            None => {},
        }
        let same = match self.last {
            Some((t, _)) => arr_eq(&t, &token),
            None => false,
        };
        proof {
            if let Some(e) = old(self).last {
                if e.0@ == token@ {
                    assert(e.0 =~= token);
                }
            }
        }
        if same {
            self.last = None;
        }
        proof {
            assert forall|t: Address| self.known(t) == old(self).known(t) by {
                if old(self).known(t) {
                    lemma_table_has_keys(old(self).table@, self.table@, t);
                }
                if self.known(t) {
                    lemma_table_has_keys(self.table@, old(self).table@, t);
                }
            }
        }
    }

    /// Where the token's first entry sits in the table.
    fn find_index(&self, token: &Address) -> (r: Option<usize>)
        ensures
            match r {
                Some(i) => first_key_index(self.table@, *token) == Some(i as int) && i < self.table@.len(),
                None => first_key_index(self.table@, *token) is None,
            },
    {
        let mut i: usize = 0;
        while i < self.table.len()
            invariant
                i <= self.table@.len(),
                forall|k: int| 0 <= k < i ==> (#[trigger] self.table@[k]).0 != *token,
            decreases self.table@.len() - i,
        {
            if arr_eq(&self.table[i].0, token) {
                proof {
                    assert(self.table@[i as int].0 =~= *token);
                    lemma_first_key_index(self.table@, *token, i as int);
                }
                return Some(i);
            }
            proof {
                assert(self.table@[i as int].0 != *token) by {
                    if self.table@[i as int].0 == *token {
                        assert(self.table@[i as int].0@ == token@);
                    }
                }
            }
            i = i + 1;
        }
        None
    }
}

/// A layout generation one step on, held at `u64::MAX`.
pub open spec fn bump_gen(g: u64) -> u64 {
    if g < u64::MAX { (g + 1) as u64 } else { g }
}

/// The table after a proxy upgrade of `token`: the layout generation of its first entry
/// moves on; a table without the token stays as it is.
pub open spec fn upgrade_table(table: Seq<(Address, TokenMeta)>, token: Address) -> Seq<(Address, TokenMeta)> {
    match first_key_index(table, token) {
        Some(i) => table.update(i, (token, TokenMeta { decimals: table[i].1.decimals, layout_gen: bump_gen(table[i].1.layout_gen) })),
        None => table,
    }
}

#[derive(Clone, Copy, PartialEq, Eq)]
pub struct LayoutGuard {
    pub proxy: Address,
    pub impl_gen: u64,
}

/// Storage slot of balances for an implementation generation.
pub open spec fn slot_for_gen(gen: u64) -> u64 {
    if gen == 1 {
        0
    } else {
        2
    }
}

/// Balance-slot resolution guarded by proxy and implementation generation.
pub struct LayoutIc {
    guard: Option<LayoutGuard>,
    balance_slot: u64,
    pub hits: u64,
    pub misses: u64,
}

impl LayoutIc {
    pub closed spec fn hits_count(&self) -> u64 {
        self.hits
    }

    pub closed spec fn misses_count(&self) -> u64 {
        self.misses
    }

    pub closed spec fn wf(&self) -> bool {
        self.guard matches Some(g) ==> self.balance_slot == slot_for_gen(g.impl_gen)
    }

    pub fn new() -> (r: Self)
        ensures
            r.wf(),
            r.hits_count() == 0 && r.misses_count() == 0,
    {
        LayoutIc { guard: None, balance_slot: 0, hits: 0, misses: 0 }
    }

    pub fn balance_slot(&mut self, g: LayoutGuard) -> (r: u64)
        requires
            old(self).wf(),
            old(self).hits_count() < u64::MAX,
            old(self).misses_count() < u64::MAX,
        ensures
            final(self).wf(),
            r == slot_for_gen(g.impl_gen),
    {
        if let Some(cur) = self.guard {
            if arr_eq(&cur.proxy, &g.proxy) && cur.impl_gen == g.impl_gen {
                self.hits = self.hits + 1;
                return self.balance_slot;
            }
        }
        self.misses = self.misses + 1;
        self.balance_slot = if g.impl_gen == 1 { 0 } else { 2 };
        self.guard = Some(g);
        self.balance_slot
    }
}

/// First byte of the three known event topics (the rest are zero): transfer, approval, swap.
pub open spec fn topic_kind(topic0: Topic0) -> Option<u64> {
    if forall|i: int| 1 <= i < 32 ==> topic0@[i] == 0 {
        if topic0@[0] == 0xdd {
            Some(1)
        } else if topic0@[0] == 0x8c {
            Some(2)
        } else if topic0@[0] == 0xc4 {
            Some(3)
        } else {
            None
        }
    } else {
        None
    }
}

/// Event classification that remembers the parser of the last topic.
pub struct TopicIc {
    table: Vec<(Topic0, u64)>,
    last: Option<(Topic0, u64)>,
    pub hits: u64,
    pub misses: u64,
}

impl TopicIc {
    pub closed spec fn hits_count(&self) -> u64 {
        self.hits
    }

    pub closed spec fn misses_count(&self) -> u64 {
        self.misses
    }

    /// The topic whose parser is remembered.
    pub closed spec fn cached_topic(&self) -> Option<Topic0> {
        match self.last {
            Some(e) => Some(e.0),
            None => None,
        }
    }

    pub closed spec fn wf(&self) -> bool {
        &&& forall|i: int| 0 <= i < self.table@.len() ==> topic_kind((#[trigger] self.table@[i]).0) == Some(self.table@[i].1)
        &&& forall|t: Topic0| topic_kind(t) is Some ==> exists|i: int| 0 <= i < self.table@.len() && (#[trigger] self.table@[i]).0@ == t@
        &&& self.last matches Some(e) ==> topic_kind(e.0) == Some(e.1)
    }

    /// A cache with the three known topics registered and nothing remembered.
    pub fn new() -> (r: Self)
        ensures
            r.wf(),
            r.cached_topic() is None,
            r.hits_count() == 0 && r.misses_count() == 0,
    {
        let mut t_transfer = [0u8; 32];
        t_transfer[0] = 0xdd;
        let mut t_approval = [0u8; 32];
        t_approval[0] = 0x8c;
        let mut t_swap = [0u8; 32];
        t_swap[0] = 0xc4;
        let mut table: Vec<(Topic0, u64)> = Vec::new();
        table.push((t_transfer, 1));
        table.push((t_approval, 2));
        table.push((t_swap, 3));
        let r = TopicIc { table, last: None, hits: 0, misses: 0 };
        assert forall|t: Topic0| topic_kind(t) is Some implies exists|i: int| 0 <= i < r.table@.len() && (#[trigger] r.table@[i]).0@ == t@ by {
            if t@[0] == 0xdd {
                assert(r.table@[0].0@ =~= t@);
            } else if t@[0] == 0x8c {
                assert(r.table@[1].0@ =~= t@);
            } else {
                assert(r.table@[2].0@ =~= t@);
            }
        }
        r
    }

    fn lookup(&self, topic0: &Topic0) -> (r: Option<u64>)
        requires
            self.wf(),
        ensures
            r == topic_kind(*topic0),
    {
        let mut i: usize = 0;
        while i < self.table.len()
            invariant
                self.wf(),
                i <= self.table@.len(),
                forall|k: int| 0 <= k < i ==> (#[trigger] self.table@[k]).0@ != topic0@,
            decreases self.table@.len() - i,
        {
            if arr_eq(&self.table[i].0, topic0) {
                proof {
                    assert(self.table@[i as int].0 =~= *topic0);
                }
                return Some(self.table[i].1);
            }
            i = i + 1;
        }
        None
    }

    /// The kind of a log's first topic, if it is a known event.
    pub fn classify(&mut self, topic0: Topic0) -> (r: Option<u64>)
        requires
            old(self).wf(),
            old(self).hits_count() < u64::MAX,
            old(self).misses_count() < u64::MAX,
        ensures
            final(self).wf(),
            r == topic_kind(topic0),
            old(self).cached_topic() == Some(topic0) ==> final(self).hits_count() == old(self).hits_count() + 1
                && final(self).misses_count() == old(self).misses_count()
                && final(self).cached_topic() == old(self).cached_topic(),
            old(self).cached_topic() != Some(topic0) ==> final(self).misses_count() == old(self).misses_count() + 1
                && final(self).hits_count() == old(self).hits_count()
                && final(self).cached_topic() == (if topic_kind(topic0) is Some { Some(topic0) } else { old(self).cached_topic() }),
    {
        proof {
            if let Some(e) = self.last {
                if e.0@ == topic0@ {
                    assert(e.0 =~= topic0);
                }
            }
        }
        let parser = if let Some((t, f)) = self.last {
            if arr_eq(&t, &topic0) {
                self.hits = self.hits + 1;
                proof {
                    assert(t =~= topic0);
                }
                f
            } else {
                self.misses = self.misses + 1;
                let f = match self.lookup(&topic0) {
                    Some(f) => f,
                    None => return None,
                };
                self.last = Some((topic0, f));
                f
            }
        } else {
            self.misses = self.misses + 1;
            let f = match self.lookup(&topic0) {
                Some(f) => f,
                None => return None,
            };
            self.last = Some((topic0, f));
            f
        };
        Some(parser)
    }
}

#[derive(Clone, Copy, PartialEq, Eq, Hash)]
pub struct CallKey {
    pub to: Address,
    pub sel: Selector,
}

#[derive(Clone, Copy, Debug, PartialEq, Eq, Structural)]
pub enum Backend {
    GenericEvm,
    UniV2Quoter,
    UniV3Quoter,
}

/// Backend chosen by the first byte of the callee address.
pub open spec fn backend_for(key: CallKey) -> Backend {
    if key.to@[0] == 0x02 {
        Backend::UniV2Quoter
    } else if key.to@[0] == 0x03 {
        Backend::UniV3Quoter
    } else {
        Backend::GenericEvm
    }
}

/// Call routing that remembers the backend of the last call key.
pub struct CallPathIc {
    last: Option<(CallKey, Backend)>,
    pub hits: u64,
    pub misses: u64,
}

impl CallPathIc {
    pub closed spec fn hits_count(&self) -> u64 {
        self.hits
    }

    pub closed spec fn misses_count(&self) -> u64 {
        self.misses
    }

    /// The call key whose backend is remembered.
    pub closed spec fn cached_key(&self) -> Option<CallKey> {
        match self.last {
            Some(e) => Some(e.0),
            None => None,
        }
    }

    pub closed spec fn wf(&self) -> bool {
        self.last matches Some(e) ==> e.1 == backend_for(e.0)
    }

    /// A cache that remembers nothing yet.
    pub fn new() -> (r: Self)
        ensures
            r.wf(),
            r.cached_key() is None,
            r.hits_count() == 0 && r.misses_count() == 0,
    {
        CallPathIc { last: None, hits: 0, misses: 0 }
    }

    pub fn backend(&mut self, key: CallKey) -> (r: Backend)
        requires
            old(self).wf(),
            old(self).hits_count() < u64::MAX,
            old(self).misses_count() < u64::MAX,
        ensures
            final(self).wf(),
            r == backend_for(key),
            old(self).cached_key() == Some(key) ==> final(self).hits_count() == old(self).hits_count() + 1
                && final(self).misses_count() == old(self).misses_count()
                && final(self).cached_key() == old(self).cached_key(),
            old(self).cached_key() != Some(key) ==> final(self).misses_count() == old(self).misses_count() + 1
                && final(self).hits_count() == old(self).hits_count()
                && final(self).cached_key() == Some(key),
    {
        proof {
            if let Some(e) = self.last {
                if e.0.to@ == key.to@ && e.0.sel@ == key.sel@ {
                    assert(e.0.to =~= key.to);
                    assert(e.0.sel =~= key.sel);
                }
            }
        }
        if let Some((k, b)) = self.last {
            if arr_eq(&k.to, &key.to) && arr_eq(&k.sel, &key.sel) {
                self.hits = self.hits + 1;
                return b;
            }
        }
        self.misses = self.misses + 1;
        let b = if key.to[0] == 0x02 {
            Backend::UniV2Quoter
        } else if key.to[0] == 0x03 {
            Backend::UniV3Quoter
        } else {
            Backend::GenericEvm
        };
        self.last = Some((key, b));
        b
    }
}

/// Transaction encoders per chain family.
#[derive(Clone, Copy, PartialEq, Eq, Structural)]
enum Encoder {
    Eth,
    L2,
}

/// Encoded nonce: as is on mainnet, offset by one million (wrapping) on the known L2s.
pub open spec fn encode_spec(chain_id: u64, nonce: u64) -> Option<u64> {
    if chain_id == 1 {
        Some(nonce)
    } else if chain_id == 42161 || chain_id == 8453 {
        Some(((nonce + 1_000_000) % 0x1_0000_0000_0000_0000) as u64)
    } else {
        None
    }
}

/// Encodes transactions, remembering the encoder of the last chain.
pub struct ChainIc {
    last_chain: Option<u64>,
    encode: Encoder,
    pub hits: u64,
    pub misses: u64,
}

impl ChainIc {
    pub closed spec fn hits_count(&self) -> u64 {
        self.hits
    }

    pub closed spec fn misses_count(&self) -> u64 {
        self.misses
    }

    /// The chain whose encoder is remembered.
    pub closed spec fn cached_chain(&self) -> Option<u64> {
        self.last_chain
    }

    pub closed spec fn wf(&self) -> bool {
        self.last_chain matches Some(c) ==> (c == 1 && self.encode == Encoder::Eth) || ((c == 42161 || c == 8453)
            && self.encode == Encoder::L2)
    }

    /// An empty cache: no chain remembered, no hits, no misses.
    pub fn new() -> (r: Self)
        ensures
            r.wf(),
            r.cached_chain() is None,
            r.hits_count() == 0 && r.misses_count() == 0,
    {
        ChainIc { last_chain: None, encode: Encoder::Eth, hits: 0, misses: 0 }
    }

    fn run(e: Encoder, nonce: u64) -> (r: u64)
        ensures
            e == Encoder::Eth ==> r == nonce,
            e == Encoder::L2 ==> r == ((nonce + 1_000_000) % 0x1_0000_0000_0000_0000) as u64,
    {
        match e {
            Encoder::Eth => nonce,
            Encoder::L2 => nonce.wrapping_add(1_000_000),
        }
    }

    pub fn encode_tx(&mut self, chain_id: u64, nonce: u64) -> (r: Option<u64>)
        requires
            old(self).wf(),
            old(self).hits_count() < u64::MAX,
            old(self).misses_count() < u64::MAX,
        ensures
            final(self).wf(),
            r == encode_spec(chain_id, nonce),
            old(self).cached_chain() == Some(chain_id) ==> final(self).hits_count() == old(self).hits_count() + 1
                && final(self).misses_count() == old(self).misses_count()
                && final(self).cached_chain() == old(self).cached_chain(),
            old(self).cached_chain() != Some(chain_id) ==> final(self).misses_count() == old(self).misses_count() + 1
                && final(self).hits_count() == old(self).hits_count()
                && final(self).cached_chain() == (if encode_spec(chain_id, nonce) is Some {
                    Some(chain_id)
                } else {
                    old(self).cached_chain()
                }),
    {
        if self.last_chain == Some(chain_id) {
            self.hits = self.hits + 1;
            return Some(Self::run(self.encode, nonce));
        }
        self.misses = self.misses + 1;
        let f = if chain_id == 1 {
            Encoder::Eth
        } else if chain_id == 42161 || chain_id == 8453 {
            Encoder::L2
        } else {
            return None;
        };
        self.last_chain = Some(chain_id);
        self.encode = f;
        Some(Self::run(f, nonce))
    }
}

} // verus!
