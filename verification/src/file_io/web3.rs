//! The logic behind blockchain file I/O: an event index rebuilt from an indexer log,
//! snapshot headers, IPFS pin manifests and multi-chain endpoint configuration.
use vstd::prelude::*;
use std::collections::HashMap;
use std::collections::hash_map::DefaultHasher;
use std::hash::{Hash, Hasher};
use vstd::std_specs::hash::DefaultHasherAdditionalSpecFns;
use crate::bytes::{le_value, read_le};
use crate::decimal::{lines_from, parse_u64_spec, parse_u64, field0, field1, two_fields, find_newline, line_slice,
    lemma_newline_at, comma_at, find_comma};
use crate::file_io::basics::is_utf8;
use crate::generics::pitfalls::utf8_view;
use vstd::string::StringSliceAdditionalSpecFns;

verus! {

broadcast use vstd::std_specs::hash::group_hash_axioms;

pub type BlockNum = u64;

/// The writes that hashing a `str` makes into a hasher: its bytes and a terminator, as
/// std's `Hash` impl for `str` decides. What exactly they are may depend on the standard
/// library, so the name stands for one build of the library.
pub uninterp spec fn str_hash_writes(s: Seq<char>) -> Seq<Seq<u8>>;

/// Feeds a `str` to a hasher with its `Hash` impl: the writes it makes are named.
#[verifier::external_body]
fn hash_str(h: &mut DefaultHasher, s: &str)
    ensures
        final(h)@ == old(h)@ + str_hash_writes(s@),
{
    s.hash(h);
}

/// The checksum stored beside an ABI artifact: the `DefaultHasher` hash of its text.
pub fn checksum(data: &str) -> (r: u64)
    ensures
        r == DefaultHasher::spec_finish(str_hash_writes(data@)),
{
    let mut h = DefaultHasher::new();
    hash_str(&mut h, data);
    assert(Seq::<Seq<u8>>::empty() + str_hash_writes(data@) =~= str_hash_writes(data@));
    h.finish()
}


pub type LogIndex = u32;

/// The key of a log event: block and index in the block.
#[derive(Clone, Copy, PartialEq, Eq, Structural, Debug)]
pub struct EventKey {
    pub block: BlockNum,
    pub log_index: LogIndex,
}

/// An event log line `block,index,...` parses.
pub open spec fn event_line_ok(l: Seq<u8>) -> bool {
    &&& parse_u64_spec(field0(l)) is Some
    &&& field1(l) matches Some(f) && parse_u64_spec(f) matches Some(v) && v <= u32::MAX
}

/// The key of a well-formed event log line.
pub open spec fn event_line_key(l: Seq<u8>) -> EventKey {
    EventKey { block: parse_u64_spec(field0(l))->0, log_index: parse_u64_spec(field1(l)->0)->0 as u32 }
}

/// The events already written, and how many this process wrote.
pub struct EventLog {
    seen: Vec<EventKey>,
    pub written: u64,
}

impl EventLog {
    /// The keys seen.
    pub closed spec fn keys(&self) -> Set<EventKey> {
        self.seen@.to_set()
    }

    pub closed spec fn written_count(&self) -> u64 {
        self.written
    }

    /// The index of an existing log: the key of every line.
    pub fn open(log_text: &[u8]) -> (r: Self)
        requires
            forall|i: int| 0 <= i < lines_from(log_text@, 0).len() ==> event_line_ok(#[trigger] lines_from(log_text@, 0)[i]),
        ensures
            r.keys() == lines_from(log_text@, 0).map_values(|l: Seq<u8>| event_line_key(l)).to_set(),
            r.written_count() == 0,
    {
        let ghost all = lines_from(log_text@, 0);
        let mut seen: Vec<EventKey> = Vec::new();
        let mut pos: usize = 0;
        let ghost mut done: Seq<Seq<u8>> = Seq::empty();
        while pos < log_text.len()
            invariant
                pos <= log_text@.len(),
                all == lines_from(log_text@, 0),
                all == done + lines_from(log_text@, pos as nat),
                seen@ == done.map_values(|l: Seq<u8>| event_line_key(l)),
                forall|i: int| 0 <= i < all.len() ==> event_line_ok(#[trigger] all[i]),
            decreases log_text@.len() - pos,
        {
            let e = find_newline(log_text, pos);
            proof {
                lemma_newline_at(log_text@, pos as nat);
            }
            let line = if e < log_text.len() {
                line_slice(log_text, pos, e)
            } else {
                vstd::slice::slice_subrange(log_text, pos, e)
            };
            proof {
                let nd = done.push(line@);
                if e < log_text@.len() {
                    assert(all =~= nd + lines_from(log_text@, (e + 1) as nat));
                } else {
                    assert(lines_from(log_text@, e as nat) =~= Seq::<Seq<u8>>::empty());
                    assert(all =~= nd + lines_from(log_text@, e as nat));
                }
                assert(all[done.len() as int] == line@);
            }
            let (f0, f1) = two_fields(line);
            let block = match parse_u64(f0) {
                Some(v) => v,
                None => {
                    return EventLog { seen, written: 0 };
                },
            };
            let idx = match f1 {
                Some(f) => match parse_u64(f) {
                    Some(v) => v,
                    None => {
                        return EventLog { seen, written: 0 };
                    },
                },
                None => {
                    return EventLog { seen, written: 0 };
                },
            };
            seen.push(EventKey { block, log_index: idx as u32 });
            proof {
                let nd = done.push(line@);
                assert(seen@ =~= nd.map_values(|l: Seq<u8>| event_line_key(l)));
                done = nd;
            }
            pos = if e < log_text.len() { e + 1 } else { e };
        }
        assert(lines_from(log_text@, pos as nat) =~= Seq::<Seq<u8>>::empty());
        assert(done =~= all);
        EventLog { seen, written: 0 }
    }

    /// Records `key` as seen. Returns false for a key seen before, which is then not
    /// written again.
    pub fn insert_key(&mut self, key: EventKey) -> (fresh: bool)
        ensures
            fresh == !old(self).keys().contains(key),
            final(self).keys() == old(self).keys().insert(key),
            final(self).written_count() == old(self).written_count(),
    {
        let mut i: usize = 0;
        while i < self.seen.len()
            invariant
                i <= self.seen@.len(),
                forall|j: int| 0 <= j < i ==> self.seen@[j] != key,
            decreases self.seen@.len() - i,
        {
            if self.seen[i] == key {
                proof {
                    assert(self.seen@.to_set().contains(self.seen@[i as int]));
                    assert(self.seen@.to_set().insert(key) =~= self.seen@.to_set());
                }
                return false;
            }
            i = i + 1;
        }
        let ghost s0 = self.seen@;
        self.seen.push(key);
        proof {
            broadcast use vstd::seq_lib::group_seq_properties;
            assert(!s0.contains(key));
            assert forall|y: EventKey| self.seen@.contains(y) <==> (s0.contains(y) || y == key) by {
                if y == key {
                    assert(self.seen@[s0.len() as int] == key);
                }
                if s0.contains(y) {
                    let j = choose|j: int| 0 <= j < s0.len() && s0[j] == y;
                    assert(self.seen@[j] == y);
                }
            }
            assert(self.seen@.to_set() =~= s0.to_set().insert(key));
        }
        true
    }

    /// Counts an event line written to the log.
    pub fn mark_written(&mut self)
        requires
            old(self).written_count() < u64::MAX,
        ensures
            final(self).written_count() == old(self).written_count() + 1,
            final(self).keys() == old(self).keys(),
    {
        self.written = self.written + 1;
    }
}

/// The header of a chain state snapshot.
#[derive(Clone, Copy, Debug)]
pub struct SnapshotHeader {
    pub block: BlockNum,
    pub state_root: [u8; 32],
    pub data_offset: u64,
}

/// The 48 header bytes: block, state root, data offset.
pub fn encode_header(h: &SnapshotHeader) -> (r: Vec<u8>)
    ensures
        r@.len() == 48,
        le_value(r@.subrange(0, 8)) == h.block,
        r@.subrange(8, 40) == h.state_root@,
        le_value(r@.subrange(40, 48)) == h.data_offset,
{
    let mut out: Vec<u8> = Vec::new();
    push_le(&mut out, h.block);
    let mut i: usize = 0;
    while i < 32
        invariant
            i <= 32,
            out@.len() == 8 + i,
            le_value(out@.subrange(0, 8)) == h.block,
            out@.subrange(8, 8 + i as int) == h.state_root@.subrange(0, i as int),
        decreases 32 - i,
    {
        let ghost before = out@;
        out.push(h.state_root[i]);
        i = i + 1;
        assert(out@.subrange(8, 8 + i as int) =~= h.state_root@.subrange(0, i as int));
        assert(out@.subrange(0, 8) =~= before.subrange(0, 8));
    }
    assert(h.state_root@.subrange(0, 32) =~= h.state_root@);
    let ghost mid = out@;
    push_le(&mut out, h.data_offset);
    assert(out@.subrange(0, 8) =~= mid.subrange(0, 8));
    assert(out@.subrange(8, 40) =~= mid.subrange(8, 40));
    out
}

/// Appends the 8 little-endian bytes of `x`.
fn push_le(out: &mut Vec<u8>, x: u64)
    ensures
        final(out)@.len() == old(out)@.len() + 8,
        final(out)@.subrange(0, old(out)@.len() as int) == old(out)@,
        le_value(final(out)@.subrange(old(out)@.len() as int, old(out)@.len() + 8int)) == x,
{
    let ghost o0 = out@;
    let mut k: usize = 0;
    let mut v: u64 = x;
    proof {
        crate::bytes::lemma_pow256_small();
        assert(out@.subrange(o0.len() as int, o0.len() as int) =~= Seq::<u8>::empty());
        assert(out@.subrange(0, o0.len() as int) =~= o0);
    }
    while k < 8
        invariant
            k <= 8,
            out@.len() == o0.len() + k,
            out@.subrange(0, o0.len() as int) == o0,
            x == le_value(out@.subrange(o0.len() as int, o0.len() + k as int)) + v * crate::bytes::pow256(k as int),
            v < crate::bytes::pow256(8 - k),
        decreases 8 - k,
    {
        let ghost before = out@;
        let b = (v % 256) as u8;
        out.push(b);
        proof {
            let seg = out@.subrange(o0.len() as int, o0.len() + k + 1);
            assert(seg.drop_last() =~= before.subrange(o0.len() as int, o0.len() + k));
            lemma_le_push(seg);
            crate::bytes::lemma_pow256_pos(k as int);
            assert(crate::bytes::pow256(k + 1) == crate::bytes::pow256(k as int) * 256) by {
                reveal_with_fuel(crate::bytes::pow256, 2);
            }
            assert(crate::bytes::pow256(8 - k) == crate::bytes::pow256(8 - k - 1) * 256) by {
                reveal_with_fuel(crate::bytes::pow256, 2);
            }
            assert(v == (v / 256) * 256 + v % 256);
            assert(x == le_value(seg) + (v / 256) * crate::bytes::pow256(k + 1)) by (nonlinear_arith)
                requires
                    x == le_value(seg.drop_last()) + v * crate::bytes::pow256(k as int),
                    le_value(seg) == le_value(seg.drop_last()) + (v % 256) * crate::bytes::pow256(k as int),
                    crate::bytes::pow256(k + 1) == crate::bytes::pow256(k as int) * 256,
                    v == (v / 256) * 256 + v % 256,
            ;
            assert(v / 256 < crate::bytes::pow256(8 - k - 1)) by (nonlinear_arith)
                requires
                    v < crate::bytes::pow256(8 - k),
                    crate::bytes::pow256(8 - k) == crate::bytes::pow256(8 - k - 1) * 256,
            ;
            assert(out@.subrange(0, o0.len() as int) =~= o0);
        }
        v = v / 256;
        k = k + 1;
    }
    assert(v == 0) by {
        reveal_with_fuel(crate::bytes::pow256, 1);
    }
}

/// The value of bytes with one more, highest, byte.
proof fn lemma_le_push(s: Seq<u8>)
    requires
        s.len() > 0,
    ensures
        le_value(s) == le_value(s.drop_last()) + s.last() * crate::bytes::pow256(s.len() - 1),
    decreases s.len(),
{
    if s.len() > 1 {
        lemma_le_push(s.drop_first());
        assert(s.drop_first().drop_last() =~= s.drop_last().drop_first());
        reveal_with_fuel(crate::bytes::pow256, 2);
        assert(crate::bytes::pow256(s.len() - 1) == 256 * crate::bytes::pow256(s.len() - 2));
        assert(le_value(s) == s[0] + 256 * le_value(s.drop_first()));
        assert(le_value(s.drop_last()) == s[0] + 256 * le_value(s.drop_last().drop_first()));
        assert(s.drop_first().last() == s.last());
        assert(s.drop_first().len() == s.len() - 1);
        assert(le_value(s) == le_value(s.drop_last()) + s.last() * crate::bytes::pow256(s.len() - 1)) by (nonlinear_arith)
            requires
                le_value(s) == s[0] + 256 * le_value(s.drop_first()),
                le_value(s.drop_last()) == s[0] + 256 * le_value(s.drop_last().drop_first()),
                le_value(s.drop_first()) == le_value(s.drop_last().drop_first()) + s.last() * crate::bytes::pow256(s.len() - 2),
                crate::bytes::pow256(s.len() - 1) == 256 * crate::bytes::pow256(s.len() - 2),
        ;
    } else {
        assert(s.drop_last().len() == 0);
        reveal_with_fuel(crate::bytes::pow256, 1);
        reveal_with_fuel(le_value, 2);
    }
}

/// Reads a header back from its 48 bytes.
pub fn decode_header(buf: &[u8]) -> (h: SnapshotHeader)
    requires
        buf@.len() >= 48,
    ensures
        h.block == le_value(buf@.subrange(0, 8)),
        h.state_root@ == buf@.subrange(8, 40),
        h.data_offset == le_value(buf@.subrange(40, 48)),
{
    let block = read_le(buf, 0, 8);
    let mut root = [0u8; 32];
    let mut i: usize = 0;
    while i < 32
        invariant
            i <= 32,
            buf@.len() >= 48,
            root@.len() == 32,
            forall|j: int| 0 <= j < i ==> #[trigger] root@[j] == buf@[8 + j],
        decreases 32 - i,
    {
        root[i] = buf[8 + i];
        i = i + 1;
    }
    assert(root@ =~= buf@.subrange(8, 40));
    let data_offset = read_le(buf, 40, 8);
    SnapshotHeader { block, state_root: root, data_offset }
}

/// Decoding the bytes of an encoded header gives the header back.
pub proof fn lemma_header_roundtrip(h: SnapshotHeader, bytes: Seq<u8>, d: SnapshotHeader)
    requires
        bytes.len() == 48,
        le_value(bytes.subrange(0, 8)) == h.block,
        bytes.subrange(8, 40) == h.state_root@,
        le_value(bytes.subrange(40, 48)) == h.data_offset,
        d.block == le_value(bytes.subrange(0, 8)),
        d.state_root@ == bytes.subrange(8, 40),
        d.data_offset == le_value(bytes.subrange(40, 48)),
    ensures
        d.block == h.block,
        d.state_root@ == h.state_root@,
        d.data_offset == h.data_offset,
{
}

/// A pinned IPFS object: content id and label.
pub struct PinEntry {
    pub cid: String,
    pub label: String,
}

/// A versioned list of pins.
pub struct Manifest {
    pub version: u64,
    pub pins: Vec<PinEntry>,
}

/// The decimal digits of `v`, as ASCII.
pub open spec fn dec_bytes(v: nat) -> Seq<u8>
    decreases v,
{
    if v < 10 {
        seq![(48 + v) as u8]
    } else {
        dec_bytes(v / 10).push((48 + v % 10) as u8)
    }
}

/// Appends the decimal digits of `v`.
pub fn push_dec(out: &mut Vec<u8>, v: u64)
    ensures
        final(out)@ == old(out)@ + dec_bytes(v as nat),
    decreases v,
{
    let ghost o0 = out@;
    if v >= 10 {
        push_dec(out, v / 10);
    }
    out.push(48 + (v % 10) as u8);
    assert(out@ =~= o0 + dec_bytes(v as nat));
}

/// The text bytes of a string.
pub open spec fn text_bytes(s: String) -> Seq<u8> {
    vstd::utf8::encode_utf8(s@)
}

/// The pin lines `cid:label`, separated by newlines.
pub open spec fn pins_text(ps: Seq<(Seq<u8>, Seq<u8>)>) -> Seq<u8>
    decreases ps.len(),
{
    if ps.len() == 0 {
        Seq::empty()
    } else if ps.len() == 1 {
        ps[0].0 + seq![58u8] + ps[0].1
    } else {
        pins_text(ps.drop_last()) + seq![10u8] + ps.last().0 + seq![58u8] + ps.last().1
    }
}

/// The pins as byte pairs.
pub open spec fn pin_bytes(ps: Seq<PinEntry>) -> Seq<(Seq<u8>, Seq<u8>)> {
    ps.map_values(|p: PinEntry| (text_bytes(p.cid), text_bytes(p.label)))
}

/// Appends the bytes of a string.
fn push_str_bytes(out: &mut Vec<u8>, s: &String)
    ensures
        final(out)@ == old(out)@ + text_bytes(*s),
{
    let b = s.as_str().as_bytes();
    let ghost o0 = out@;
    let mut i: usize = 0;
    while i < b.len()
        invariant
            i <= b@.len(),
            out@ == o0 + b@.subrange(0, i as int),
        decreases b@.len() - i,
    {
        out.push(b[i]);
        i = i + 1;
        assert(out@ =~= o0 + b@.subrange(0, i as int));
    }
    assert(b@.subrange(0, b@.len() as int) =~= b@);
}

impl Manifest {
    /// `v{version}` and then one `cid:label` line per pin, lines separated by newlines.
    pub fn serialize(&self) -> (r: Vec<u8>)
        ensures
            r@ == seq![118u8] + dec_bytes(self.version as nat) + seq![10u8] + pins_text(pin_bytes(self.pins@)),
    {
        let mut out: Vec<u8> = Vec::new();
        out.push(118);
        push_dec(&mut out, self.version);
        out.push(10);
        let ghost head = out@;
        let ghost ps = pin_bytes(self.pins@);
        let mut i: usize = 0;
        while i < self.pins.len()
            invariant
                i <= self.pins@.len(),
                ps == pin_bytes(self.pins@),
                out@ == head + pins_text(ps.subrange(0, i as int)),
            decreases self.pins@.len() - i,
        {
            let ghost before = out@;
            if i > 0 {
                out.push(10);
            }
            push_str_bytes(&mut out, &self.pins[i].cid);
            out.push(58);
            push_str_bytes(&mut out, &self.pins[i].label);
            proof {
                let sub = ps.subrange(0, i + 1);
                assert(sub.drop_last() =~= ps.subrange(0, i as int));
                if i == 0 {
                    assert(ps.subrange(0, 0) =~= Seq::<(Seq<u8>, Seq<u8>)>::empty());
                }
                assert(out@ =~= head + pins_text(sub));
            }
            i = i + 1;
        }
        assert(ps.subrange(0, self.pins@.len() as int) =~= ps);
        out
    }
}

/// The index of the first colon at or after `i`, or the end.
pub open spec fn colon_at(l: Seq<u8>, i: nat) -> nat
    decreases l.len() - i,
{
    if i >= l.len() {
        l.len()
    } else if l[i as int] == 58 {
        i
    } else {
        colon_at(l, i + 1)
    }
}

/// The pins of manifest lines: each line with a colon gives the text before the first
/// colon and the text after it; other lines are skipped.
pub open spec fn pins_of(ls: Seq<Seq<u8>>) -> Seq<(Seq<u8>, Seq<u8>)>
    decreases ls.len(),
{
    if ls.len() == 0 {
        Seq::empty()
    } else {
        let prev = pins_of(ls.drop_last());
        let l = ls.last();
        let c = colon_at(l, 0);
        if c < l.len() {
            prev.push((l.subrange(0, c as int), l.subrange(c + 1 as int, l.len() as int)))
        } else {
            prev
        }
    }
}

/// What parsing a manifest gives: the version from a first line `v<u64>`, and the pins
/// of the remaining lines; `None` without such a first line.
pub open spec fn manifest_spec(text: Seq<u8>) -> Option<(u64, Seq<(Seq<u8>, Seq<u8>)>)> {
    let ls = lines_from(text, 0);
    if ls.len() == 0 || ls[0].len() == 0 || ls[0][0] != 118 {
        None
    } else {
        match parse_u64_spec(ls[0].drop_first()) {
            None => None,
            Some(v) => Some((v, pins_of(ls.drop_first()))),
        }
    }
}

proof fn lemma_pins_of_len(ls: Seq<Seq<u8>>)
    ensures
        pins_of(ls).len() <= ls.len(),
    decreases ls.len(),
{
    if ls.len() > 0 {
        lemma_pins_of_len(ls.drop_last());
    }
}

/// A string holding exactly the given text bytes.
fn owned_text(b: &[u8]) -> (r: Option<String>)
    ensures
        match r {
            Some(s) => text_bytes(s) == b@,
            None => !is_utf8(b@),
        },
{
    match utf8_view(b) {
        Some(s) => {
            let o = s.to_owned();
            Some(o)
        },
        None => None,
    }
}

impl Manifest {
    /// Parses a manifest written by `serialize`.
    pub fn parse(text: &str) -> (r: Option<Self>)
        ensures
            match r {
                Some(m) => manifest_spec(text.spec_bytes()) == Some((m.version, pin_bytes(m.pins@))),
                None => manifest_spec(text.spec_bytes()) is None,
            },
    {
        let t = text.as_bytes();
        let ghost all = lines_from(t@, 0);
        proof {
            vstd::utf8::encode_utf8_valid_utf8(text@);
            assert(t@.subrange(0, t@.len() as int) =~= t@);
        }
        if t.len() == 0 {
            return None;
        }
        let e0 = find_newline(t, 0);
        proof {
            lemma_newline_at(t@, 0);
        }
        let first = if e0 < t.len() { line_slice(t, 0, e0) } else { vstd::slice::slice_subrange(t, 0, e0) };
        assert(all[0] == first@);
        if first.len() == 0 || first[0] != 118 {
            return None;
        }
        let digits = vstd::slice::slice_subrange(first, 1, first.len());
        assert(digits@ =~= first@.drop_first());
        let version = match parse_u64(digits) {
            Some(v) => v,
            None => {
                return None;
            },
        };
        let mut pins: Vec<PinEntry> = Vec::new();
        let mut pos: usize = if e0 < t.len() { e0 + 1 } else { e0 };
        let ghost rest = all.drop_first();
        let ghost mut done: Seq<Seq<u8>> = Seq::empty();
        proof {
            if e0 < t@.len() {
                assert(rest =~= lines_from(t@, pos as nat));
                lemma_utf8_after_ascii(t@, e0 as int);
            } else {
                assert(lines_from(t@, pos as nat) =~= Seq::<Seq<u8>>::empty());
                assert(rest =~= lines_from(t@, pos as nat));
                assert(t@.subrange(pos as int, t@.len() as int) =~= Seq::<u8>::empty());
            }
        }
        while pos < t.len()
            invariant
                pos <= t@.len(),
                rest == done + lines_from(t@, pos as nat),
                pin_bytes(pins@) == pins_of(done),
                vstd::utf8::valid_utf8(t@.subrange(pos as int, t@.len() as int)),
            decreases t@.len() - pos,
        {
            let ghost u = t@.subrange(pos as int, t@.len() as int);
            let e = find_newline(t, pos);
            proof {
                lemma_newline_at(t@, pos as nat);
            }
            let line = if e < t.len() { line_slice(t, pos, e) } else { vstd::slice::slice_subrange(t, pos, e) };
            let ghost nd = done.push(line@);
            proof {
                if e < t@.len() {
                    assert(rest =~= nd + lines_from(t@, (e + 1) as nat));
                } else {
                    assert(lines_from(t@, e as nat) =~= Seq::<Seq<u8>>::empty());
                    assert(rest =~= nd + lines_from(t@, e as nat));
                }
                assert(nd.drop_last() =~= done);
            }
            let mut c: usize = 0;
            while c < line.len() && line[c] != 58
                invariant
                    c <= line@.len(),
                    colon_at(line@, 0) == colon_at(line@, c as nat),
                decreases line@.len() - c,
            {
                c = c + 1;
            }
            if c < line.len() {
                proof {
                    lemma_pins_of_len(done);
                    assert(pins_of(nd) == pins_of(done).push((line@.subrange(0, c as int), line@.subrange(c + 1, line@.len() as int))));
                    let l = line@.len() as int;
                    assert(line@ =~= u.subrange(0, l));
                    assert(u[c as int] == 58);
                    lemma_utf8_before_ascii(u, c as int);
                    assert(line@.subrange(0, c as int) =~= u.subrange(0, c as int));
                    lemma_utf8_after_ascii(u, c as int);
                    let w = u.subrange(c + 1, u.len() as int);
                    assert(l < u.len() ==> u[l] == 10 || u[l] == 13);
                    lemma_utf8_before_ascii(w, l - c - 1);
                    assert(line@.subrange(c + 1, l) =~= w.subrange(0, l - c - 1));
                    lemma_utf8_is_text(u.subrange(0, c as int));
                    lemma_utf8_is_text(w.subrange(0, l - c - 1));
                }
                let cid_bytes = vstd::slice::slice_subrange(line, 0, c);
                let label_bytes = vstd::slice::slice_subrange(line, c + 1, line.len());
                let cid = match owned_text(cid_bytes) {
                    Some(s) => s,
                    None => {
                        return None;
                    },
                };
                let label = match owned_text(label_bytes) {
                    Some(s) => s,
                    None => {
                        return None;
                    },
                };
                let ghost before = pins@;
                pins.push(PinEntry { cid, label });
                assert(pin_bytes(pins@) =~= pin_bytes(before).push((text_bytes(cid), text_bytes(label))));
            }
            proof {
                done = nd;
                if e < t@.len() {
                    assert(u[e - pos] == 10);
                    lemma_utf8_after_ascii(u, e - pos);
                    assert(u.subrange(e - pos + 1, u.len() as int) =~= t@.subrange(e + 1, t@.len() as int));
                } else {
                    assert(t@.subrange(e as int, t@.len() as int) =~= Seq::<u8>::empty());
                }
            }
            pos = if e < t.len() { e + 1 } else { e };
        }
        assert(lines_from(t@, pos as nat) =~= Seq::<Seq<u8>>::empty());
        assert(done =~= rest);
        Some(Manifest { version, pins })
    }
}

/// Valid UTF-8 cut just before an ASCII byte, or at its end, stays valid.
proof fn lemma_utf8_before_ascii(u: Seq<u8>, k: int)
    requires
        vstd::utf8::valid_utf8(u),
        0 <= k <= u.len(),
        k < u.len() ==> u[k] < 128,
    ensures
        vstd::utf8::valid_utf8(u.subrange(0, k)),
{
    if k == u.len() {
        assert(u.subrange(0, k) =~= u);
    } else {
        vstd::utf8::is_char_boundary_iff_not_is_continuation_byte(u, k);
        vstd::utf8::valid_utf8_split(u, k);
    }
}

/// Valid UTF-8 after an ASCII byte stays valid.
proof fn lemma_utf8_after_ascii(u: Seq<u8>, k: int)
    requires
        vstd::utf8::valid_utf8(u),
        0 <= k < u.len(),
        u[k] < 128,
    ensures
        vstd::utf8::valid_utf8(u.subrange(k + 1, u.len() as int)),
{
    vstd::utf8::is_char_boundary_iff_not_is_continuation_byte(u, k);
    vstd::utf8::valid_utf8_split(u, k);
    let v = u.subrange(k, u.len() as int);
    assert(v[0] == u[k]);
    assert(vstd::utf8::pop_first_scalar(v) =~= u.subrange(k + 1, u.len() as int));
}

/// Valid UTF-8 bytes are the encoding of some text.
proof fn lemma_utf8_is_text(b: Seq<u8>)
    requires
        vstd::utf8::valid_utf8(b),
    ensures
        is_utf8(b),
{
    vstd::utf8::decode_utf8_encode_utf8(b);
}

/// One pin line: `cid:label`.
pub open spec fn pin_line(p: (Seq<u8>, Seq<u8>)) -> Seq<u8> {
    p.0 + seq![58u8] + p.1
}

/// Pins that a manifest carries through a write and a read: no cid holds a colon or a
/// newline, no label holds a newline or ends in a carriage return.
pub open spec fn pins_writable(ps: Seq<(Seq<u8>, Seq<u8>)>) -> bool {
    forall|i: int| 0 <= i < ps.len() ==> {
        &&& forall|j: int| 0 <= j < (#[trigger] ps[i]).0.len() ==> ps[i].0[j] != 58 && ps[i].0[j] != 10
        &&& forall|j: int| 0 <= j < ps[i].1.len() ==> ps[i].1[j] != 10
        &&& ps[i].1.len() > 0 ==> ps[i].1.last() != 13
    }
}

/// A manifest read back from what `serialize` writes has the version and pins written,
/// for pins whose text keeps to the line format.
pub proof fn lemma_manifest_roundtrip(version: u64, ps: Seq<(Seq<u8>, Seq<u8>)>)
    requires
        pins_writable(ps),
    ensures
        manifest_spec(seq![118u8] + dec_bytes(version as nat) + seq![10u8] + pins_text(ps)) == Some((version, ps)),
{
    let h = seq![118u8] + dec_bytes(version as nat);
    let x = h + seq![10u8];
    let t = x + pins_text(ps);
    lemma_dec_bytes(version as nat);
    assert(t =~= seq![118u8] + dec_bytes(version as nat) + seq![10u8] + pins_text(ps));
    assert forall|j: int| 0 <= j < h.len() implies h[j] != 10 by {
        if j > 0 {
            assert(h[j] == dec_bytes(version as nat)[j - 1]);
        }
    }
    lemma_newline_none(t, 0, h.len());
    assert(t[h.len() as int] == 10);
    assert(t.subrange(0, h.len() as int) =~= h);
    lemma_lines_shift(x, pins_text(ps), 0);
    assert(x.len() == h.len() + 1);
    let ls = lines_from(t, 0);
    assert(ls == seq![strip_cr_of(h)] + lines_from(pins_text(ps), 0));
    assert(h.last() != 13);
    assert(ls[0] == h);
    assert(ls.drop_first() =~= lines_from(pins_text(ps), 0));
    assert(h.drop_first() =~= dec_bytes(version as nat));
    if ps.len() > 0 {
        lemma_pins_lines(ps);
        lemma_pins_of_lines(ps);
    } else {
        assert(pins_text(ps) =~= Seq::<u8>::empty());
        assert(lines_from(pins_text(ps), 0) =~= Seq::<Seq<u8>>::empty());
        assert(pins_of(Seq::<Seq<u8>>::empty()) =~= ps);
    }
}

/// `strip_cr` under a name of this module, so that the first line can be spoken of.
pub open spec fn strip_cr_of(l: Seq<u8>) -> Seq<u8> {
    crate::decimal::strip_cr(l)
}

/// The digits of `v` are decimal digits that parse back to `v`.
proof fn lemma_dec_bytes(v: nat)
    requires
        v <= u64::MAX,
    ensures
        dec_bytes(v).len() > 0,
        forall|j: int| 0 <= j < dec_bytes(v).len() ==> 48 <= #[trigger] dec_bytes(v)[j] <= 57,
        crate::decimal::dec_value(dec_bytes(v)) == v,
        parse_u64_spec(dec_bytes(v)) == Some(v as u64),
    decreases v,
{
    let d = dec_bytes(v);
    if v >= 10 {
        lemma_dec_bytes(v / 10);
        assert(d.drop_last() =~= dec_bytes(v / 10));
        assert(d.last() == 48 + v % 10);
        assert(v == (v / 10) * 10 + v % 10);
        assert(crate::decimal::dec_value(d) == crate::decimal::dec_value(d.drop_last()) * 10 + (d.last() - 48) as nat);
    } else {
        assert(d.drop_last() =~= Seq::<u8>::empty());
        assert(crate::decimal::dec_value(d) == crate::decimal::dec_value(d.drop_last()) * 10 + (d.last() - 48) as nat);
    }
    assert(crate::decimal::unsigned_digits(d) == d);
    assert(crate::decimal::all_dec_digits(d));
}

/// The first newline at or after `j` is at `k` when none lies in between.
proof fn lemma_newline_none(s: Seq<u8>, j: nat, k: nat)
    requires
        j <= k <= s.len(),
        forall|i: int| j <= i < k ==> s[i] != 10,
        k < s.len() ==> s[k as int] == 10,
    ensures
        crate::decimal::newline_at(s, j) == k,
    decreases k - j,
{
    if j < k {
        lemma_newline_none(s, j + 1, k);
    }
}

/// Finding newlines in `x + b` past `x` is finding them in `b`.
proof fn lemma_newline_shift(x: Seq<u8>, b: Seq<u8>, j: nat)
    requires
        j <= b.len(),
    ensures
        crate::decimal::newline_at(x + b, x.len() + j) == x.len() + crate::decimal::newline_at(b, j),
    decreases b.len() - j,
{
    if j < b.len() {
        assert((x + b)[(x.len() + j) as int] == b[j as int]);
        if b[j as int] != 10 {
            lemma_newline_shift(x, b, j + 1);
        }
    }
}

/// The lines of `x + b` past `x` are the lines of `b`.
proof fn lemma_lines_shift(x: Seq<u8>, b: Seq<u8>, j: nat)
    requires
        j <= b.len(),
    ensures
        lines_from(x + b, x.len() + j) == lines_from(b, j),
    decreases b.len() - j,
{
    if j < b.len() {
        lemma_newline_shift(x, b, j);
        let e = crate::decimal::newline_at(b, j);
        crate::decimal::lemma_newline_at(b, j);
        if e < b.len() {
            lemma_lines_shift(x, b, e + 1);
            assert((x + b).subrange((x.len() + j) as int, (x.len() + e) as int) =~= b.subrange(j as int, e as int));
        } else {
            assert((x + b).subrange((x.len() + j) as int, (x + b).len() as int) =~= b.subrange(j as int, b.len() as int));
        }
    }
}

/// A piece of text without newlines is one line.
proof fn lemma_lines_single(c: Seq<u8>)
    requires
        c.len() > 0,
        forall|i: int| 0 <= i < c.len() ==> c[i] != 10,
    ensures
        lines_from(c, 0) == seq![c],
{
    lemma_newline_none(c, 0, c.len());
    assert(c.subrange(0, c.len() as int) =~= c);
}

/// Text `a`, a newline, then text `c`: the lines of `a` from `j`, then those of `c`,
/// where `a` ends in neither a newline nor a carriage return.
proof fn lemma_lines_concat(a: Seq<u8>, c: Seq<u8>, j: nat)
    requires
        j < a.len(),
        a.last() != 10,
        a.last() != 13,
    ensures
        lines_from(a + seq![10u8] + c, j) == lines_from(a, j) + lines_from(c, 0),
    decreases a.len() - j,
{
    let t = a + seq![10u8] + c;
    let x = a + seq![10u8];
    assert(t =~= x + c);
    let e = crate::decimal::newline_at(a, j);
    crate::decimal::lemma_newline_at(a, j);
    lemma_newline_prefix(a, seq![10u8] + c, j);
    assert(t =~= a + (seq![10u8] + c));
    if e < a.len() {
        assert(e + 1 < a.len());
        lemma_lines_concat(a, c, e + 1);
        assert(t.subrange(j as int, e as int) =~= a.subrange(j as int, e as int));
    } else {
        lemma_newline_none(seq![10u8] + c, 0, 0);
        lemma_lines_shift(x, c, 0);
        assert(t.subrange(j as int, a.len() as int) =~= a.subrange(j as int, a.len() as int));
        assert(a.subrange(j as int, a.len() as int).last() == a.last());
    }
}

/// Newlines in `a + y` from `j` inside `a`: the one in `a`, or else the first in `y`.
proof fn lemma_newline_prefix(a: Seq<u8>, y: Seq<u8>, j: nat)
    requires
        j <= a.len(),
    ensures
        crate::decimal::newline_at(a + y, j) == if crate::decimal::newline_at(a, j) < a.len() {
            crate::decimal::newline_at(a, j)
        } else {
            a.len() + crate::decimal::newline_at(y, 0)
        },
    decreases a.len() - j,
{
    if j < a.len() {
        assert((a + y)[j as int] == a[j as int]);
        if a[j as int] != 10 {
            lemma_newline_prefix(a, y, j + 1);
        }
    } else {
        lemma_newline_shift(a, y, 0);
    }
}

/// The lines of the pin text are the pin lines.
proof fn lemma_pins_lines(ps: Seq<(Seq<u8>, Seq<u8>)>)
    requires
        ps.len() > 0,
        pins_writable(ps),
    ensures
        lines_from(pins_text(ps), 0) == ps.map_values(|p: (Seq<u8>, Seq<u8>)| pin_line(p)),
        pins_text(ps).len() > 0,
        pins_text(ps).last() != 10 && pins_text(ps).last() != 13,
    decreases ps.len(),
{
    let l = pin_line(ps.last());
    assert(ps[ps.len() - 1] == ps.last());
    assert forall|i: int| 0 <= i < l.len() implies l[i] != 10 by {
        if i < ps.last().0.len() {
            assert(l[i] == ps.last().0[i]);
        } else if i > ps.last().0.len() {
            assert(l[i] == ps.last().1[i - ps.last().0.len() - 1]);
        }
    }
    if ps.last().1.len() > 0 {
        assert(l.last() == ps.last().1.last());
    } else {
        assert(l.last() == 58);
    }
    lemma_lines_single(l);
    if ps.len() == 1 {
        assert(pins_text(ps) =~= l);
        assert(ps.map_values(|p: (Seq<u8>, Seq<u8>)| pin_line(p)) =~= seq![l]);
    } else {
        let init = ps.drop_last();
        assert(pins_writable(init)) by {
            assert forall|i: int| 0 <= i < init.len() implies #[trigger] init[i] == ps[i] by {}
        }
        lemma_pins_lines(init);
        let a = pins_text(init);
        assert(pins_text(ps) =~= a + seq![10u8] + l);
        lemma_lines_concat(a, l, 0);
        assert(ps.map_values(|p: (Seq<u8>, Seq<u8>)| pin_line(p)) =~= init.map_values(|p: (Seq<u8>, Seq<u8>)| pin_line(p)) + seq![l]);
        assert(pins_text(ps).last() == l.last());
    }
}

/// The first colon of a pin line ends its cid.
proof fn lemma_colon_of_line(p: (Seq<u8>, Seq<u8>), j: nat)
    requires
        j <= p.0.len(),
        forall|i: int| 0 <= i < p.0.len() ==> p.0[i] != 58,
    ensures
        colon_at(pin_line(p), j) == p.0.len(),
    decreases p.0.len() - j,
{
    let l = pin_line(p);
    if j < p.0.len() {
        assert(l[j as int] == p.0[j as int]);
        lemma_colon_of_line(p, j + 1);
    } else {
        assert(l[j as int] == 58);
    }
}

/// Reading pins from pin lines gives the pins back.
proof fn lemma_pins_of_lines(ps: Seq<(Seq<u8>, Seq<u8>)>)
    requires
        pins_writable(ps),
    ensures
        pins_of(ps.map_values(|p: (Seq<u8>, Seq<u8>)| pin_line(p))) == ps,
    decreases ps.len(),
{
    let ls = ps.map_values(|p: (Seq<u8>, Seq<u8>)| pin_line(p));
    if ps.len() == 0 {
        assert(ls =~= Seq::<Seq<u8>>::empty());
        assert(pins_of(ls) =~= ps);
    } else {
        let init = ps.drop_last();
        assert(pins_writable(init)) by {
            assert forall|i: int| 0 <= i < init.len() implies #[trigger] init[i] == ps[i] by {}
        }
        lemma_pins_of_lines(init);
        assert(ls.drop_last() =~= init.map_values(|p: (Seq<u8>, Seq<u8>)| pin_line(p)));
        let p = ps.last();
        assert(ps[ps.len() - 1] == p);
        lemma_colon_of_line(p, 0);
        let l = ls.last();
        assert(l == pin_line(p));
        assert(l.subrange(0, p.0.len() as int) =~= p.0);
        assert(l.subrange((p.0.len() + 1) as int, l.len() as int) =~= p.1);
        assert(pins_of(ls) =~= init.push(p));
        assert(init.push(p) =~= ps);
    }
}

/// The pins of a prefix of the lines are a prefix of the pins of all of them.
proof fn lemma_pins_of_prefix(ls: Seq<Seq<u8>>, n: nat)
    requires
        n <= ls.len(),
    ensures
        pins_of(ls.subrange(0, n as int)).len() <= pins_of(ls).len(),
        forall|i: int| 0 <= i < pins_of(ls.subrange(0, n as int)).len() ==> pins_of(ls)[i] == #[trigger] pins_of(ls.subrange(0, n as int))[i],
    decreases ls.len() - n,
{
    if n < ls.len() {
        lemma_pins_of_prefix(ls, n + 1);
        let a = ls.subrange(0, n + 1 as int);
        let b = ls.subrange(0, n as int);
        assert(a.drop_last() =~= b);
        assert(pins_of(b).len() <= pins_of(a).len());
        assert forall|i: int| 0 <= i < pins_of(b).len() implies pins_of(ls)[i] == #[trigger] pins_of(b)[i] by {
            assert(pins_of(a)[i] == pins_of(b)[i]);
            assert(pins_of(ls)[i] == pins_of(a)[i]);
        }
    } else {
        assert(ls.subrange(0, n as int) =~= ls);
    }
}

/// An RPC endpoint of a chain and its weight.
pub struct ChainEndpoint {
    pub url: String,
    pub weight: u32,
}

/// A chain and its endpoints, heaviest first.
pub struct ChainConfig {
    pub chain_id: u64,
    pub endpoints: Vec<ChainEndpoint>,
}

/// The third comma-separated field, if there are two commas.
pub open spec fn field2(s: Seq<u8>) -> Option<Seq<u8>> {
    let c1 = comma_at(s, 0);
    let c2 = comma_at(s, c1 + 1);
    if c1 < s.len() && c2 < s.len() {
        Some(s.subrange(c2 + 1 as int, comma_at(s, c2 + 1) as int))
    } else {
        None
    }
}

/// A configuration line `chain_id,url,weight` that parses, with a text url.
pub open spec fn config_line_ok(l: Seq<u8>) -> bool {
    &&& parse_u64_spec(field0(l)) is Some
    &&& field1(l) matches Some(u) && is_utf8(u)
    &&& field2(l) matches Some(w) && parse_u64_spec(w) matches Some(v) && v <= u32::MAX
}

/// The chain of a configuration line.
pub open spec fn line_chain(l: Seq<u8>) -> u64 {
    parse_u64_spec(field0(l))->0
}

/// The endpoint of a configuration line: url bytes and weight.
pub open spec fn line_endpoint(l: Seq<u8>) -> (Seq<u8>, u32) {
    (field1(l)->0, parse_u64_spec(field2(l)->0)->0 as u32)
}

/// Where an endpoint of weight `w` goes in a list sorted heaviest first: after every
/// endpoint at least as heavy.
pub open spec fn slot_for(s: Seq<(Seq<u8>, u32)>, w: u32) -> nat
    decreases s.len(),
{
    if s.len() == 0 {
        0
    } else if s.last().1 >= w {
        s.len()
    } else {
        slot_for(s.drop_last(), w)
    }
}

/// A list sorted heaviest first, endpoints of equal weight in the order they came: the
/// stable sort by descending weight.
pub open spec fn sort_by_weight(s: Seq<(Seq<u8>, u32)>) -> Seq<(Seq<u8>, u32)>
    decreases s.len(),
{
    if s.len() == 0 {
        s
    } else {
        let prev = sort_by_weight(s.drop_last());
        prev.insert(slot_for(prev, s.last().1) as int, s.last())
    }
}

/// The endpoints of `chain` in the lines, in line order.
pub open spec fn chain_lines(ls: Seq<Seq<u8>>, chain: u64) -> Seq<(Seq<u8>, u32)>
    decreases ls.len(),
{
    if ls.len() == 0 {
        Seq::empty()
    } else {
        let prev = chain_lines(ls.drop_last(), chain);
        if line_chain(ls.last()) == chain { prev.push(line_endpoint(ls.last())) } else { prev }
    }
}

/// An endpoint as bytes and weight.
pub open spec fn endpoint_view(e: ChainEndpoint) -> (Seq<u8>, u32) {
    (text_bytes(e.url), e.weight)
}

/// The endpoints of a chain as bytes and weights.
pub open spec fn endpoints_view(es: Seq<ChainEndpoint>) -> Seq<(Seq<u8>, u32)> {
    es.map_values(|e: ChainEndpoint| endpoint_view(e))
}

proof fn lemma_slot_le(s: Seq<(Seq<u8>, u32)>, w: u32)
    ensures
        slot_for(s, w) <= s.len(),
    decreases s.len(),
{
    if s.len() > 0 {
        lemma_slot_le(s.drop_last(), w);
    }
}

/// The RPC endpoints of every configured chain.
pub struct ConfigStore {
    pub chains: HashMap<u64, ChainConfig>,
}

impl ConfigStore {
    /// Reads `chain_id,url,weight` lines; each chain's endpoints end up heaviest first,
    /// equal weights in line order.
    pub fn from_text(text: &[u8]) -> (r: Self)
        requires
            forall|i: int| 0 <= i < lines_from(text@, 0).len() ==> config_line_ok(#[trigger] lines_from(text@, 0)[i]),
        ensures
            forall|c: u64| #[trigger] r.chains@.contains_key(c) <==> chain_lines(lines_from(text@, 0), c).len() > 0,
            forall|c: u64| #[trigger] r.chains@.contains_key(c) ==> r.chains@[c].chain_id == c
                && endpoints_view(r.chains@[c].endpoints@) == sort_by_weight(chain_lines(lines_from(text@, 0), c)),
    {
        let ghost all = lines_from(text@, 0);
        let mut chains: HashMap<u64, ChainConfig> = HashMap::new();
        let mut pos: usize = 0;
        let ghost mut done: Seq<Seq<u8>> = Seq::empty();
        while pos < text.len()
            invariant
                pos <= text@.len(),
                all == lines_from(text@, 0),
                all == done + lines_from(text@, pos as nat),
                forall|i: int| 0 <= i < all.len() ==> config_line_ok(#[trigger] all[i]),
                forall|c: u64| #[trigger] chains@.contains_key(c) <==> chain_lines(done, c).len() > 0,
                forall|c: u64| #[trigger] chains@.contains_key(c) ==> chains@[c].chain_id == c
                    && endpoints_view(chains@[c].endpoints@) == sort_by_weight(chain_lines(done, c)),
            decreases text@.len() - pos,
        {
            let e = find_newline(text, pos);
            proof {
                lemma_newline_at(text@, pos as nat);
            }
            let line = if e < text.len() { line_slice(text, pos, e) } else { vstd::slice::slice_subrange(text, pos, e) };
            let ghost nd = done.push(line@);
            proof {
                if e < text@.len() {
                    assert(all =~= nd + lines_from(text@, (e + 1) as nat));
                } else {
                    assert(lines_from(text@, e as nat) =~= Seq::<Seq<u8>>::empty());
                    assert(all =~= nd + lines_from(text@, e as nat));
                }
                assert(nd.drop_last() =~= done);
                assert(all[done.len() as int] == line@);
                assert(config_line_ok(line@));
            }
            let c1 = find_comma(line, 0);
            let id = match parse_u64(vstd::slice::slice_subrange(line, 0, c1)) {
                Some(v) => v,
                None => {
                    return ConfigStore { chains };
                },
            };
            let c2 = find_comma(line, c1 + 1);
            let url = match owned_text(vstd::slice::slice_subrange(line, c1 + 1, c2)) {
                Some(u) => u,
                None => {
                    return ConfigStore { chains };
                },
            };
            let c3 = find_comma(line, c2 + 1);
            let weight = match parse_u64(vstd::slice::slice_subrange(line, c2 + 1, c3)) {
                Some(w) => w as u32,
                None => {
                    return ConfigStore { chains };
                },
            };
            let mut cfg = match chains.remove(&id) {
                Some(c) => c,
                None => ChainConfig { chain_id: id, endpoints: Vec::new() },
            };
            let ghost old_eps = endpoints_view(cfg.endpoints@);
            proof {
                if chain_lines(done, id).len() == 0 {
                    assert(old_eps =~= Seq::<(Seq<u8>, u32)>::empty());
                }
            }
            let mut k: usize = cfg.endpoints.len();
            assert(old_eps.subrange(0, k as int) =~= old_eps);
            while k > 0 && cfg.endpoints[k - 1].weight < weight
                invariant
                    k <= cfg.endpoints@.len(),
                    old_eps == endpoints_view(cfg.endpoints@),
                    slot_for(old_eps, weight) == slot_for(old_eps.subrange(0, k as int), weight),
                decreases k,
            {
                assert(old_eps.subrange(0, k as int).drop_last() =~= old_eps.subrange(0, k - 1));
                k = k - 1;
            }
            proof {
                lemma_slot_le(old_eps.subrange(0, k as int), weight);
                if k > 0 {
                    assert(slot_for(old_eps.subrange(0, k as int), weight) == k);
                } else {
                    assert(slot_for(old_eps.subrange(0, 0), weight) == 0);
                }
            }
            cfg.endpoints.insert(k, ChainEndpoint { url, weight });
            proof {
                assert(endpoints_view(cfg.endpoints@) =~= old_eps.insert(k as int, (line_endpoint(line@).0, weight)));
            }
            let ghost m0 = chains@;
            chains.insert(id, cfg);
            proof {
                assert forall|c: u64| #[trigger] chains@.contains_key(c) <==> chain_lines(nd, c).len() > 0 by {
                    if c != id {
                        assert(chain_lines(nd, c) == chain_lines(done, c));
                    }
                }
                assert forall|c: u64| #[trigger] chains@.contains_key(c) implies chains@[c].chain_id == c
                    && endpoints_view(chains@[c].endpoints@) == sort_by_weight(chain_lines(nd, c)) by {
                    if c != id {
                        assert(chain_lines(nd, c) == chain_lines(done, c));
                    } else {
                        assert(line_chain(line@) == id);
                        assert(chain_lines(nd, id) == chain_lines(done, id).push(line_endpoint(line@)));
                        let sl = chain_lines(nd, id);
                        assert(sl.drop_last() =~= chain_lines(done, id));
                        assert(sl.last() == line_endpoint(line@));
                        assert(old_eps == sort_by_weight(chain_lines(done, id)));
                        assert(sort_by_weight(sl) == old_eps.insert(slot_for(old_eps, weight) as int, line_endpoint(line@)));
                    }
                }
                done = nd;
            }
            pos = if e < text.len() { e + 1 } else { e };
        }
        assert(lines_from(text@, pos as nat) =~= Seq::<Seq<u8>>::empty());
        assert(done =~= all);
        ConfigStore { chains }
    }

    /// The heaviest endpoint of a chain.
    pub fn best_endpoint(&self, chain_id: u64) -> (r: Option<&str>)
        ensures
            match r {
                Some(u) => self.chains@.contains_key(chain_id) && self.chains@[chain_id].endpoints@.len() > 0
                    && u@ == self.chains@[chain_id].endpoints@[0].url@,
                None => !self.chains@.contains_key(chain_id) || self.chains@[chain_id].endpoints@.len() == 0,
            },
    {
        match self.chains.get(&chain_id) {
            Some(c) => {
                if c.endpoints.len() > 0 {
                    Some(c.endpoints[0].url.as_str())
                } else {
                    None
                }
            },
            None => None,
        }
    }
}


/// The canonical tip the cursor last recorded.
#[derive(Debug)]
pub struct ChainHead {
    pub block: BlockNum,
    pub hash: String,
}

/// The hash recorded for a block: `0x` and the block number as 64 hex digits.
pub fn head_for(block: BlockNum) -> (r: ChainHead)
    ensures
        r.block == block,
        r.hash@ == "0x"@ + crate::text::hex_chars_padded(block as nat, 64),
{
    let mut hash = String::from_str("0x");
    let h = crate::text::u64_to_hex64(block);
    hash.append(h.as_str());
    ChainHead { block, hash }
}

/// The head file's text: `block,hash`.
pub fn head_text(head: &ChainHead) -> (r: String)
    ensures
        r@ == crate::text::decimal_chars(head.block as nat) + ","@ + head.hash@,
{
    let mut s = crate::text::u64_to_decimal(head.block);
    s.append(",");
    s.append(head.hash.as_str());
    s
}

/// An event log line: `block,line`.
pub fn event_line(block: BlockNum, line: &str) -> (r: String)
    ensures
        r@ == crate::text::decimal_chars(block as nat) + ","@ + line@,
{
    let mut s = crate::text::u64_to_decimal(block);
    s.append(",");
    s.append(line);
    s
}

/// The block a log line starts with: its text before the first comma, as a number.
pub open spec fn line_block(l: Seq<char>) -> Option<u64> {
    parse_u64_spec(field0(vstd::utf8::encode_utf8(l)))
}

/// The lines at or below the safe block, in order.
pub open spec fn keep_safe(lines: Seq<Seq<char>>, safe: BlockNum) -> Seq<Seq<char>>
    decreases lines.len(),
{
    if lines.len() == 0 {
        Seq::empty()
    } else {
        let prev = keep_safe(lines.drop_last(), safe);
        if line_block(lines.last())->0 <= safe {
            prev.push(lines.last())
        } else {
            prev
        }
    }
}

proof fn lemma_keep_safe_len(lines: Seq<Seq<char>>, safe: BlockNum)
    ensures
        keep_safe(lines, safe).len() <= lines.len(),
    decreases lines.len(),
{
    if lines.len() > 0 {
        lemma_keep_safe_len(lines.drop_last(), safe);
    }
}

/// Drops the lines above the safe block after a reorg and returns how many were dropped;
/// every line must start with its block number.
pub fn retain_safe(lines: &mut Vec<String>, safe_block: BlockNum) -> (dropped: usize)
    requires
        forall|i: int| 0 <= i < old(lines)@.len() ==> #[trigger] line_block(old(lines)@[i]@) is Some,
    ensures
        final(lines)@.map_values(|l: String| l@) == keep_safe(old(lines)@.map_values(|l: String| l@), safe_block),
        dropped == old(lines)@.len() - final(lines)@.len(),
{
    let ghost all = lines@.map_values(|l: String| l@);
    let before = lines.len();
    let mut kept: Vec<String> = Vec::new();
    let mut i: usize = 0;
    while i < lines.len()
        invariant
            i <= lines@.len(),
            lines@.len() == before,
            all == lines@.map_values(|l: String| l@),
            forall|j: int| 0 <= j < lines@.len() ==> #[trigger] line_block(lines@[j]@) is Some,
            kept@.map_values(|l: String| l@) == keep_safe(all.subrange(0, i as int), safe_block),
        decreases lines@.len() - i,
    {
        let l = lines[i].as_str();
        let b = l.as_bytes();
        let (f0, _) = two_fields(b);
        let ghost prev = kept@.map_values(|l: String| l@);
        assert(all.subrange(0, i + 1).drop_last() =~= all.subrange(0, i as int));
        assert(line_block(lines@[i as int]@) is Some);
        match parse_u64(f0) {
            Some(v) => {
                if v <= safe_block {
                    kept.push(lines[i].clone());
                    assert(kept@.map_values(|l: String| l@) =~= prev.push(all[i as int]));
                }
            },
            None => {},
        }
        i = i + 1;
    }
    assert(all.subrange(0, before as int) =~= all);
    proof {
        lemma_keep_safe_len(all, safe_block);
    }
    *lines = kept;
    before - lines.len()
}

} // verus!
