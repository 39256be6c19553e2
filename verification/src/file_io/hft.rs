//! The logic behind trading-system file I/O: a zero-copy view of a fixed-size tick tape,
//! the fsync decisions of an order journal, spill segment accounting, write-ahead-log
//! replay and versioned risk configuration reloads.
use vstd::prelude::*;
use crate::bytes::{le_value, read_le};
use crate::text::{decimal_chars, zero_pad, u64_to_decimal_padded};
use crate::decimal::{lines_from, field0, field1, parse_u64_spec, parse_i64_spec, parse_u64, parse_i64,
    find_newline, line_slice, two_fields, lemma_newline_at};

verus! {

pub type SeqNum = u64;

pub type Px = i64;

/// Size of one tape record: sequence number and price, little-endian.
pub const RECORD: usize = 16;

/// A tick of the tape.
#[derive(Clone, Copy, Debug)]
pub struct Tick {
    pub seq: SeqNum,
    pub px: Px,
}

/// The tick in record `i` of the bytes.
pub open spec fn tape_tick(data: Seq<u8>, i: int) -> Tick {
    Tick {
        seq: le_value(data.subrange(16 * i, 16 * i + 8)) as u64,
        px: (le_value(data.subrange(16 * i + 8, 16 * i + 16)) as u64) as i64,
    }
}

/// Fixed-size tick records read in place from mapped bytes.
pub struct TapeView<'a> {
    data: &'a [u8],
}

impl<'a> TapeView<'a> {
    pub closed spec fn bytes(&self) -> Seq<u8> {
        self.data@
    }

    pub fn open(data: &'a [u8]) -> (r: Self)
        ensures
            r.bytes() == data@,
    {
        TapeView { data }
    }

    /// The number of whole records.
    pub fn len(&self) -> (n: usize)
        ensures
            n == self.bytes().len() / 16,
    {
        self.data.len() / RECORD
    }

    /// Record `i`, if it lies wholly within the bytes.
    pub fn get(&self, i: usize) -> (r: Option<Tick>)
        ensures
            r == (if 16 * i + 16 <= self.bytes().len() { Some(tape_tick(self.bytes(), i as int)) } else { None }),
    {
        assert(self.data@.len() == self.data.len());
        let off = match i.checked_mul(RECORD) {
            Some(o) => o,
            None => {
                return None;
            },
        };
        if off > self.data.len() || self.data.len() - off < RECORD {
            return None;
        }
        let seq = read_le(self.data, off, 8);
        let px = read_le(self.data, off + 8, 8);
        Some(Tick { seq, px: #[verifier::truncate] (px as i64) })
    }

    /// Every record in order.
    pub fn iter(&self) -> (r: Vec<Tick>)
        ensures
            r@.len() == self.bytes().len() / 16,
            forall|i: int| 0 <= i < r@.len() ==> #[trigger] r@[i] == tape_tick(self.bytes(), i),
    {
        let n = self.len();
        let mut out: Vec<Tick> = Vec::new();
        let mut i: usize = 0;
        while i < n
            invariant
                i <= n,
                n == self.bytes().len() / 16,
                out@.len() == i,
                forall|j: int| 0 <= j < i ==> #[trigger] out@[j] == tape_tick(self.bytes(), j),
            decreases n - i,
        {
            assert(16 * i + 16 <= self.bytes().len()) by (nonlinear_arith)
                requires
                    i < n,
                    n == self.bytes().len() / 16,
            ;
            match self.get(i) {
                Some(t) => out.push(t),
                None => {},
            }
            i = i + 1;
        }
        out
    }
}

/// How an order journal forces its records to disk.
#[derive(Clone, Copy, PartialEq, Eq, Structural, Debug)]
pub enum Durability {
    /// After every record.
    PerRecord,
    /// After every `n` records.
    Batch(u32),
}

/// The counters of an append-only order journal and its fsync decisions.
pub struct AofCounters {
    pub records: u64,
    pub fsyncs: u32,
    policy: Durability,
    pending: u32,
}

impl AofCounters {
    pub closed spec fn record_count(&self) -> u64 {
        self.records
    }

    pub closed spec fn fsync_count(&self) -> u32 {
        self.fsyncs
    }

    pub closed spec fn pending_count(&self) -> u32 {
        self.pending
    }

    pub closed spec fn policy_of(&self) -> Durability {
        self.policy
    }

    pub fn new(policy: Durability) -> (r: Self)
        ensures
            r.record_count() == 0 && r.fsync_count() == 0 && r.pending_count() == 0,
            r.policy_of() == policy,
    {
        AofCounters { records: 0, fsyncs: 0, policy, pending: 0 }
    }

    /// Records appended since the last sync.
    pub fn pending_records(&self) -> (r: u32)
        ensures
            r == self.pending_count(),
    {
        self.pending
    }

    /// Counts an appended record and says whether the journal must now be flushed and
    /// synced.
    pub fn on_append(&mut self) -> (sync: bool)
        requires
            old(self).record_count() < u64::MAX,
            old(self).pending_count() < u32::MAX,
        ensures
            final(self).record_count() == old(self).record_count() + 1,
            final(self).pending_count() == old(self).pending_count() + 1,
            final(self).fsync_count() == old(self).fsync_count(),
            final(self).policy_of() == old(self).policy_of(),
            sync == match old(self).policy_of() {
                Durability::PerRecord => true,
                Durability::Batch(n) => old(self).pending_count() + 1 >= n,
            },
    {
        self.records = self.records + 1;
        self.pending = self.pending + 1;
        match self.policy {
            Durability::PerRecord => true,
            Durability::Batch(n) => self.pending >= n,
        }
    }

    /// Counts a completed flush and sync.
    pub fn on_synced(&mut self)
        requires
            old(self).fsync_count() < u32::MAX,
        ensures
            final(self).fsync_count() == old(self).fsync_count() + 1,
            final(self).pending_count() == 0,
            final(self).record_count() == old(self).record_count(),
            final(self).policy_of() == old(self).policy_of(),
    {
        self.fsyncs = self.fsyncs + 1;
        self.pending = 0;
    }
}

/// Spill segments written so far: the next segment's number and the bytes spilled.
pub struct SpillCounter {
    pub seg_id: u64,
    pub spilled_bytes: u64,
}

impl SpillCounter {
    pub fn new() -> (r: Self)
        ensures
            r.seg_id == 0 && r.spilled_bytes == 0,
    {
        SpillCounter { seg_id: 0, spilled_bytes: 0 }
    }

    /// The file name of the next segment: `spill_`, its number with zeros in front to
    /// make at least six digits, and `.seg`, so that the names of the first million
    /// segments sort in the order they were written.
    pub fn segment_name(&self) -> (r: String)
        ensures
            r@ == "spill_"@ + zero_pad(decimal_chars(self.seg_id as nat), 6) + ".seg"@,
    {
        let mut s = String::from_str("spill_");
        let d = u64_to_decimal_padded(self.seg_id, 6);
        s.append(d.as_str());
        s.append(".seg");
        s
    }

    /// Counts a segment of `len` bytes written.
    pub fn spilled(&mut self, len: u64)
        requires
            old(self).seg_id < u64::MAX,
            old(self).spilled_bytes + len <= u64::MAX,
        ensures
            final(self).seg_id == old(self).seg_id + 1,
            final(self).spilled_bytes == old(self).spilled_bytes + len,
    {
        self.spilled_bytes = self.spilled_bytes + len;
        self.seg_id = self.seg_id + 1;
    }
}

/// Position and last applied sequence number.
#[derive(Clone, Copy, Debug)]
pub struct State {
    pub position: i64,
    pub last_seq: SeqNum,
}

impl State {
    pub fn default() -> (r: Self)
        ensures
            r.position == 0 && r.last_seq == 0,
    {
        State { position: 0, last_seq: 0 }
    }
}

/// A WAL line `seq,delta` is well formed: both fields parse.
pub open spec fn wal_line_ok(l: Seq<u8>) -> bool {
    &&& parse_u64_spec(field0(l)) is Some
    &&& field1(l) matches Some(f) && parse_i64_spec(f) is Some
}

/// The state after replaying WAL lines: each sets the last sequence number and adds its
/// delta to the position.
pub open spec fn wal_replay(lines: Seq<Seq<u8>>, st: State) -> State
    decreases lines.len(),
{
    if lines.len() == 0 {
        st
    } else {
        let prev = wal_replay(lines.drop_last(), st);
        let l = lines.last();
        State {
            position: (prev.position + parse_i64_spec(field1(l)->0)->0) as i64,
            last_seq: parse_u64_spec(field0(l))->0,
        }
    }
}

/// Every WAL line parses, and no running position overflows.
pub open spec fn wal_ok(lines: Seq<Seq<u8>>, st: State) -> bool {
    &&& forall|i: int| 0 <= i < lines.len() ==> wal_line_ok(#[trigger] lines[i])
    &&& forall|k: int| 1 <= k <= lines.len() ==> i64::MIN <= #[trigger] wal_replay(lines.subrange(0, k - 1), st).position
        + parse_i64_spec(field1(lines[k - 1])->0)->0 <= i64::MAX
}

proof fn lemma_lines_step(s: Seq<u8>, start: nat)
    requires
        start < s.len(),
    ensures
        ({
            let e = crate::decimal::newline_at(s, start);
            &&& start <= e <= s.len()
            &&& e < s.len() ==> lines_from(s, start) == seq![crate::decimal::strip_cr(s.subrange(start as int, e as int))] + lines_from(s, e + 1)
            &&& e >= s.len() ==> lines_from(s, start) == seq![s.subrange(start as int, e as int)]
        }),
{
    lemma_newline_at(s, start);
}

/// Replays a write-ahead log of `seq,delta` lines onto `st`.
pub fn replay_wal(text: &[u8], st: State) -> (r: State)
    requires
        wal_ok(lines_from(text@, 0), st),
    ensures
        r == wal_replay(lines_from(text@, 0), st),
{
    let ghost all = lines_from(text@, 0);
    let mut cur = st;
    let mut pos: usize = 0;
    let ghost mut done: Seq<Seq<u8>> = Seq::empty();
    while pos < text.len()
        invariant
            pos <= text@.len(),
            all == lines_from(text@, 0),
            all == done + lines_from(text@, pos as nat),
            cur == wal_replay(done, st),
            wal_ok(all, st),
        decreases text@.len() - pos,
    {
        proof {
            lemma_lines_step(text@, pos as nat);
        }
        let e = find_newline(text, pos);
        let line = if e < text.len() { line_slice(text, pos, e) } else { vstd::slice::slice_subrange(text, pos, e) };
        let ghost next_done = done.push(line@);
        proof {
            assert(all[done.len() as int] == line@);
            assert(wal_line_ok(all[done.len() as int]));
            assert(next_done.drop_last() =~= done);
            assert(all.subrange(0, done.len() as int) =~= done);
            assert(1 <= done.len() + 1 <= all.len());
            assert(all.subrange(0, (done.len() + 1) - 1) =~= done);
        }
        let (f0, f1) = two_fields(line);
        let seq = match parse_u64(f0) {
            Some(v) => v,
            None => {
                return cur;
            },
        };
        let delta = match f1 {
            Some(f) => match parse_i64(f) {
                Some(v) => v,
                None => {
                    return cur;
                },
            },
            None => {
                return cur;
            },
        };
        cur = State { position: cur.position + delta, last_seq: seq };
        proof {
            done = next_done;
            if e < text.len() {
                assert(all == done + lines_from(text@, (e + 1) as nat));
            } else {
                assert(all =~= done);
                assert(lines_from(text@, e as nat) =~= Seq::<Seq<u8>>::empty());
            }
        }
        pos = if e < text.len() { e + 1 } else { e };
    }
    assert(lines_from(text@, pos as nat) =~= Seq::<Seq<u8>>::empty());
    assert(done =~= all);
    cur
}

/// Replays a write-ahead log of `seq,delta` lines onto `st`, or gives `None` when a line
/// does not parse or the position would overflow.
pub fn replay_wal_checked(text: &[u8], st: State) -> (r: Option<State>)
    ensures
        r is Some <==> wal_ok(lines_from(text@, 0), st),
        r matches Some(v) ==> v == wal_replay(lines_from(text@, 0), st),
{
    let ghost all = lines_from(text@, 0);
    let mut cur = st;
    let mut pos: usize = 0;
    let ghost mut done: Seq<Seq<u8>> = Seq::empty();
    while pos < text.len()
        invariant
            pos <= text@.len(),
            all == lines_from(text@, 0),
            all == done + lines_from(text@, pos as nat),
            cur == wal_replay(done, st),
            forall|i: int| 0 <= i < done.len() ==> wal_line_ok(#[trigger] all[i]),
            forall|k: int| 1 <= k <= done.len() ==> i64::MIN <= #[trigger] wal_replay(all.subrange(0, k - 1), st).position
                + parse_i64_spec(field1(all[k - 1])->0)->0 <= i64::MAX,
        decreases text@.len() - pos,
    {
        proof {
            lemma_lines_step(text@, pos as nat);
        }
        let e = find_newline(text, pos);
        let line = if e < text.len() { line_slice(text, pos, e) } else { vstd::slice::slice_subrange(text, pos, e) };
        let ghost next_done = done.push(line@);
        let ghost k = done.len() as int;
        proof {
            assert(all[k] == line@);
            assert(next_done.drop_last() =~= done);
            assert(all.subrange(0, k) =~= done);
        }
        let (f0, f1) = two_fields(line);
        let seq = match parse_u64(f0) {
            Some(v) => v,
            None => {
                assert(!wal_line_ok(all[k]));
                return None;
            },
        };
        let delta = match f1 {
            Some(f) => match parse_i64(f) {
                Some(v) => v,
                None => {
                    assert(!wal_line_ok(all[k]));
                    return None;
                },
            },
            None => {
                assert(!wal_line_ok(all[k]));
                return None;
            },
        };
        let sum: i128 = cur.position as i128 + delta as i128;
        if sum < i64::MIN as i128 || sum > i64::MAX as i128 {
            proof {
                assert(all.subrange(0, (k + 1) - 1) =~= done);
                assert(!(i64::MIN <= wal_replay(all.subrange(0, (k + 1) - 1), st).position
                    + parse_i64_spec(field1(all[(k + 1) - 1])->0)->0 <= i64::MAX));
            }
            return None;
        }
        cur = State { position: sum as i64, last_seq: seq };
        proof {
            assert forall|j: int| 1 <= j <= next_done.len() implies i64::MIN <= #[trigger] wal_replay(all.subrange(0, j - 1), st).position
                + parse_i64_spec(field1(all[j - 1])->0)->0 <= i64::MAX by {
                if j == k + 1 {
                    assert(all.subrange(0, j - 1) =~= done);
                }
            }
            done = next_done;
            if e < text.len() {
                assert(all == done + lines_from(text@, (e + 1) as nat));
            } else {
                assert(all =~= done);
                assert(lines_from(text@, e as nat) =~= Seq::<Seq<u8>>::empty());
            }
        }
        pos = if e < text.len() { e + 1 } else { e };
    }
    assert(lines_from(text@, pos as nat) =~= Seq::<Seq<u8>>::empty());
    assert(done =~= all);
    Some(cur)
}

/// An empty log, which is what a log that was never written reads as, is well formed
/// and replays to the state it started from.
pub proof fn lemma_wal_empty(st: State)
    ensures
        wal_ok(lines_from(Seq::<u8>::empty(), 0), st),
        wal_replay(lines_from(Seq::<u8>::empty(), 0), st) == st,
{
    assert(lines_from(Seq::<u8>::empty(), 0) =~= Seq::<Seq<u8>>::empty());
}

/// Risk limits with a version number.
#[derive(Clone, Copy, Debug)]
pub struct RiskConfig {
    pub version: u64,
    pub max_notional: i64,
}

/// A one-byte whitespace character: tab, line feed, vertical tab, form feed, carriage
/// return or space.
pub open spec fn is_ascii_ws(b: u8) -> bool {
    b == 32 || b == 9 || b == 10 || b == 11 || b == 12 || b == 13
}

/// The UTF-8 encoding of a three-byte whitespace character: U+1680, U+2000 to U+200A,
/// U+2028, U+2029, U+202F, U+205F or U+3000.
pub open spec fn is_ws3(a: u8, b: u8, c: u8) -> bool {
    ||| a == 0xE1 && b == 0x9A && c == 0x80
    ||| a == 0xE2 && b == 0x80 && ((0x80 <= c && c <= 0x8A) || c == 0xA8 || c == 0xA9 || c == 0xAF)
    ||| a == 0xE2 && b == 0x81 && c == 0x9F
    ||| a == 0xE3 && b == 0x80 && c == 0x80
}

/// The length of the encoding of a whitespace character (one with the Unicode property
/// `White_Space`, which `str::trim` removes) that `s` starts with, or 0.
pub open spec fn ws_prefix_len(s: Seq<u8>) -> nat {
    if s.len() >= 1 && is_ascii_ws(s[0]) {
        1
    } else if s.len() >= 2 && s[0] == 0xC2 && (s[1] == 0x85 || s[1] == 0xA0) {
        2
    } else if s.len() >= 3 && is_ws3(s[0], s[1], s[2]) {
        3
    } else {
        0
    }
}

/// The length of the encoding of a whitespace character that `s` ends with, or 0.
pub open spec fn ws_suffix_len(s: Seq<u8>) -> nat {
    let n = s.len() as int;
    if n >= 1 && is_ascii_ws(s[n - 1]) {
        1
    } else if n >= 2 && s[n - 2] == 0xC2 && (s[n - 1] == 0x85 || s[n - 1] == 0xA0) {
        2
    } else if n >= 3 && is_ws3(s[n - 3], s[n - 2], s[n - 1]) {
        3
    } else {
        0
    }
}

/// The text without leading and trailing whitespace characters. On UTF-8 text this is
/// what `str::trim` gives.
pub open spec fn trim_spec(s: Seq<u8>) -> Seq<u8>
    decreases s.len(),
{
    if ws_prefix_len(s) > 0 {
        trim_spec(s.subrange(ws_prefix_len(s) as int, s.len() as int))
    } else if ws_suffix_len(s) > 0 {
        trim_spec(s.subrange(0, s.len() - ws_suffix_len(s)))
    } else {
        s
    }
}

/// A configuration text `version,max_notional` parses once the whitespace around it is
/// trimmed; a third field, if any, is ignored.
pub open spec fn config_text_ok(text: Seq<u8>) -> bool {
    &&& parse_u64_spec(field0(trim_spec(text))) is Some
    &&& field1(trim_spec(text)) matches Some(f) && parse_i64_spec(f) is Some
}

fn ws3(a: u8, b: u8, c: u8) -> (r: bool)
    ensures
        r == is_ws3(a, b, c),
{
    (a == 0xE1 && b == 0x9A && c == 0x80)
        || (a == 0xE2 && b == 0x80 && ((0x80 <= c && c <= 0x8A) || c == 0xA8 || c == 0xA9 || c == 0xAF))
        || (a == 0xE2 && b == 0x81 && c == 0x9F)
        || (a == 0xE3 && b == 0x80 && c == 0x80)
}

fn ascii_ws(x: u8) -> (r: bool)
    ensures
        r == is_ascii_ws(x),
{
    x == 32 || x == 9 || x == 10 || x == 11 || x == 12 || x == 13
}

/// `ws_prefix_len` of `s[a..b]`.
fn ws_len_front(s: &[u8], a: usize, b: usize) -> (n: usize)
    requires
        a <= b <= s@.len(),
    ensures
        n == ws_prefix_len(s@.subrange(a as int, b as int)),
{
    let ghost t = s@.subrange(a as int, b as int);
    if b - a >= 1 && ascii_ws(s[a]) {
        assert(t[0] == s@[a as int]);
        1
    } else if b - a >= 2 && s[a] == 0xC2 && (s[a + 1] == 0x85 || s[a + 1] == 0xA0) {
        assert(t[0] == s@[a as int] && t[1] == s@[a + 1]);
        2
    } else if b - a >= 3 && ws3(s[a], s[a + 1], s[a + 2]) {
        assert(t[0] == s@[a as int] && t[1] == s@[a + 1] && t[2] == s@[a + 2]);
        3
    } else {
        assert(b - a >= 1 ==> t[0] == s@[a as int]);
        assert(b - a >= 2 ==> t[1] == s@[a + 1]);
        assert(b - a >= 3 ==> t[2] == s@[a + 2]);
        0
    }
}

/// `ws_suffix_len` of `s[a..b]`.
fn ws_len_back(s: &[u8], a: usize, b: usize) -> (n: usize)
    requires
        a <= b <= s@.len(),
    ensures
        n == ws_suffix_len(s@.subrange(a as int, b as int)),
{
    let ghost t = s@.subrange(a as int, b as int);
    let ghost m = t.len() as int;
    if b - a >= 1 && ascii_ws(s[b - 1]) {
        assert(t[m - 1] == s@[b - 1]);
        1
    } else if b - a >= 2 && s[b - 2] == 0xC2 && (s[b - 1] == 0x85 || s[b - 1] == 0xA0) {
        assert(t[m - 2] == s@[b - 2] && t[m - 1] == s@[b - 1]);
        2
    } else if b - a >= 3 && ws3(s[b - 3], s[b - 2], s[b - 1]) {
        assert(t[m - 3] == s@[b - 3] && t[m - 2] == s@[b - 2] && t[m - 1] == s@[b - 1]);
        3
    } else {
        assert(b - a >= 1 ==> t[m - 1] == s@[b - 1]);
        assert(b - a >= 2 ==> t[m - 2] == s@[b - 2]);
        assert(b - a >= 3 ==> t[m - 3] == s@[b - 3]);
        0
    }
}

/// Strips leading and trailing whitespace characters, as `str::trim` does on UTF-8 text.
pub fn trim_whitespace(s: &[u8]) -> (r: &[u8])
    ensures
        r@ == trim_spec(s@),
{
    let mut a: usize = 0;
    let b: usize = s.len();
    assert(s@.subrange(0, s@.len() as int) =~= s@);
    while a < b && ws_len_front(s, a, b) > 0
        invariant
            a <= b == s@.len(),
            trim_spec(s@) == trim_spec(s@.subrange(a as int, b as int)),
        decreases b - a,
    {
        let n = ws_len_front(s, a, b);
        let ghost t = s@.subrange(a as int, b as int);
        assert(t.subrange(n as int, t.len() as int) =~= s@.subrange(a + n, b as int));
        a = a + n;
    }
    let mut b: usize = b;
    while a < b && ws_len_back(s, a, b) > 0
        invariant
            a <= b <= s@.len(),
            trim_spec(s@) == trim_spec(s@.subrange(a as int, b as int)),
            ws_prefix_len(s@.subrange(a as int, b as int)) == 0,
        decreases b - a,
    {
        let n = ws_len_back(s, a, b);
        let ghost t = s@.subrange(a as int, b as int);
        let ghost u = s@.subrange(a as int, b - n);
        assert(t.subrange(0, t.len() - n) =~= u);
        assert(u.len() >= 1 ==> u[0] == t[0]);
        assert(u.len() >= 2 ==> u[1] == t[1]);
        assert(u.len() >= 3 ==> u[2] == t[2]);
        b = b - n;
    }
    vstd::slice::slice_subrange(s, a, b)
}

/// Applies a newly read configuration text: a version older than the current one is
/// refused and the configuration kept; otherwise the new limits take over. Returns
/// whether they did.
pub fn apply_config_text(cfg: &mut RiskConfig, text: &[u8]) -> (changed: bool)
    requires
        config_text_ok(text@),
    ensures
        ({
            let t = trim_spec(text@);
            let version = parse_u64_spec(field0(t))->0;
            let max = parse_i64_spec(field1(t)->0)->0;
            &&& changed == (version >= old(cfg).version)
            &&& changed ==> *final(cfg) == (RiskConfig { version, max_notional: max })
            &&& !changed ==> *final(cfg) == *old(cfg)
        }),
{
    let t = trim_whitespace(text);
    let (f0, f1) = two_fields(t);
    let version = match parse_u64(f0) {
        Some(v) => v,
        None => {
            return false;
        },
    };
    let max_notional = match f1 {
        Some(f) => match parse_i64(f) {
            Some(v) => v,
            None => {
                return false;
            },
        },
        None => {
            return false;
        },
    };
    if version < cfg.version {
        return false;
    }
    *cfg = RiskConfig { version, max_notional };
    true
}

} // verus!
