//! File I/O fundamentals on in-memory data: sequential and random access, byte-wise and
//! line-wise reading, fsync policies, fixed-size framing and reading from an offset.
use vstd::prelude::*;
use crate::bytes::{le_value, read_le};
use crate::generics::pitfalls::utf8_view;

verus! {

/// The sum of the bytes of `s`.
pub open spec fn byte_sum(s: Seq<u8>) -> int
    decreases s.len(),
{
    if s.len() == 0 { 0 } else { byte_sum(s.drop_last()) + s.last() }
}

proof fn lemma_byte_sum_bound(s: Seq<u8>)
    ensures
        0 <= byte_sum(s) <= 255 * s.len(),
    decreases s.len(),
{
    if s.len() > 0 {
        lemma_byte_sum_bound(s.drop_last());
    }
}

/// Reads the data front to back and adds up its bytes.
pub fn sequential_sum(data: &[u8]) -> (r: u64)
    requires
        255 * data@.len() <= u64::MAX,
    ensures
        r == byte_sum(data@),
{
    let mut sum: u64 = 0;
    let mut i: usize = 0;
    while i < data.len()
        invariant
            i <= data@.len(),
            255 * data@.len() <= u64::MAX,
            sum == byte_sum(data@.subrange(0, i as int)),
        decreases data@.len() - i,
    {
        proof {
            assert(data@.subrange(0, i + 1).drop_last() =~= data@.subrange(0, i as int));
            lemma_byte_sum_bound(data@.subrange(0, i as int));
        }
        sum = sum + data[i] as u64;
        i = i + 1;
    }
    assert(data@.subrange(0, data@.len() as int) =~= data@);
    sum
}

/// The first byte of record `n` of fixed size `record_size`, if the offset exists.
pub fn random_read_nth(data: &[u8], record_size: usize, n: usize) -> (r: Option<u8>)
    ensures
        n * record_size > usize::MAX ==> r is None,
        n * record_size <= usize::MAX ==> r == (if n * record_size < data@.len() {
            Some(data@[n * record_size])
        } else {
            None
        }),
{
    let off = match n.checked_mul(record_size) {
        Some(o) => o,
        None => {
            return None;
        },
    };
    if off < data.len() {
        Some(data[off])
    } else {
        None
    }
}

/// Reads the data one byte per read call and counts the calls that returned a byte.
pub fn unbuffered_byte_reads(data: &[u8]) -> (r: usize)
    ensures
        r == data@.len(),
{
    let mut pos: usize = 0;
    let mut reads: usize = 0;
    while pos < data.len()
        invariant
            pos <= data@.len(),
            reads == pos,
        decreases data@.len() - pos,
    {
        pos = pos + 1;
        reads = reads + 1;
    }
    reads
}

/// Where the line that starts at `start` ends: just past its newline, or at the end.
pub open spec fn line_end(s: Seq<u8>, start: nat) -> nat
    decreases s.len() - start,
{
    if start >= s.len() {
        s.len()
    } else if s[start as int] == 10 {
        start + 1
    } else {
        line_end(s, start + 1)
    }
}

/// Bytes that are the UTF-8 encoding of some text.
pub open spec fn is_utf8(s: Seq<u8>) -> bool {
    exists|cs: Seq<char>| vstd::utf8::encode_utf8(cs) == s
}

/// How many lines a line reader gets from `start` on: each line runs to and with its
/// newline, the last one possibly without; reading stops at the end or at the first line
/// that is not UTF-8.
pub open spec fn lines_read(s: Seq<u8>, start: nat) -> nat
    decreases s.len() - start,
{
    if start >= s.len() {
        0
    } else {
        let end = line_end(s, start);
        if is_utf8(s.subrange(start as int, end as int)) && start < end <= s.len() {
            1 + lines_read(s, end)
        } else {
            0
        }
    }
}

proof fn lemma_line_end_range(s: Seq<u8>, start: nat)
    ensures
        start < s.len() ==> start < line_end(s, start) <= s.len(),
    decreases s.len() - start,
{
    if start < s.len() && s[start as int] != 10 {
        lemma_line_end_range(s, start + 1);
        if start + 1 >= s.len() {
            assert(line_end(s, start + 1) == s.len());
        }
    }
}

/// Reads the data line by line and counts the lines read.
pub fn buffered_line_reads(data: &[u8]) -> (r: usize)
    ensures
        r == lines_read(data@, 0),
{
    let mut pos: usize = 0;
    let mut lines: usize = 0;
    while pos < data.len()
        invariant
            pos <= data@.len(),
            lines <= pos,
            lines_read(data@, 0) == lines + lines_read(data@, pos as nat),
        decreases data@.len() - pos,
    {
        let mut end: usize = pos;
        while end < data.len() && data[end] != 10
            invariant
                pos <= end <= data@.len(),
                line_end(data@, pos as nat) == line_end(data@, end as nat),
            decreases data@.len() - end,
        {
            end = end + 1;
        }
        if end < data.len() {
            end = end + 1;
        }
        proof {
            lemma_line_end_range(data@, pos as nat);
        }
        assert(end == line_end(data@, pos as nat));
        let line = vstd::slice::slice_subrange(data, pos, end);
        match utf8_view(line) {
            Some(_) => {},
            None => {
                return lines;
            },
        }
        lines = lines + 1;
        pos = end;
    }
    lines
}

/// When a journal forces its writes to disk.
#[derive(Clone, Copy, PartialEq, Eq, Structural, Debug)]
pub enum FsyncPolicy {
    /// After every record.
    Always,
    /// After every `n` records.
    EveryN(u32),
    /// Never; the OS decides.
    OsDefault,
}

/// Whether the record appended after `pending` unsynced ones is due for an fsync.
pub open spec fn fsync_due(policy: FsyncPolicy, pending: nat) -> bool {
    match policy {
        FsyncPolicy::Always => true,
        FsyncPolicy::EveryN(n) => pending + 1 >= n,
        FsyncPolicy::OsDefault => false,
    }
}

/// Records, fsyncs and unsynced records after one more append.
pub open spec fn writer_step(policy: FsyncPolicy, c: (nat, nat, nat)) -> (nat, nat, nat) {
    if fsync_due(policy, c.2) {
        (c.0 + 1, c.1 + 1, 0)
    } else {
        (c.0 + 1, c.1, c.2 + 1)
    }
}

/// Records, fsyncs and unsynced records after `k` appends to a new writer.
pub open spec fn writer_counts(policy: FsyncPolicy, k: nat) -> (nat, nat, nat)
    decreases k,
{
    if k == 0 {
        (0, 0, 0)
    } else {
        writer_step(policy, writer_counts(policy, (k - 1) as nat))
    }
}

/// After `k` appends a writer holds `k` records and has synced `k` times under
/// `Always` or `EveryN(0)`, `k / n` times under `EveryN(n)`, never under `OsDefault`;
/// the records since the last sync are what is left over.
pub proof fn lemma_writer_counts(policy: FsyncPolicy, k: nat)
    ensures
        writer_counts(policy, k).0 == k,
        writer_counts(policy, k).1 == match policy {
            FsyncPolicy::Always => k,
            FsyncPolicy::EveryN(n) => if n == 0 { k } else { k / (n as nat) },
            FsyncPolicy::OsDefault => 0,
        },
        writer_counts(policy, k).2 == match policy {
            FsyncPolicy::Always => 0,
            FsyncPolicy::EveryN(n) => if n == 0 { 0 } else { k % (n as nat) },
            FsyncPolicy::OsDefault => k,
        },
    decreases k,
{
    if k > 0 {
        lemma_writer_counts(policy, (k - 1) as nat);
        if let FsyncPolicy::EveryN(n) = policy {
            if n > 0 {
                lemma_count_step(k, n as nat);
            }
        }
    }
}

/// Going from `k - 1` to `k` items, a group of `n` closes exactly when the remainder wraps.
pub(crate) proof fn lemma_count_step(k: nat, n: nat)
    requires
        k > 0,
        n > 0,
    ensures
        ((k - 1) as nat) % n + 1 >= n ==> k / n == ((k - 1) as nat) / n + 1 && k % n == 0,
        ((k - 1) as nat) % n + 1 < n ==> k / n == ((k - 1) as nat) / n && k % n == ((k - 1) as nat) % n + 1,
{
    let j = (k - 1) as nat;
    vstd::arithmetic::div_mod::lemma_fundamental_div_mod(j as int, n as int);
    let q = j / n;
    let r = j % n;
    if r + 1 >= n {
        assert(k == (q + 1) * n + 0) by (nonlinear_arith)
            requires
                j == n * q + r,
                r + 1 >= n,
                r < n,
                k == j + 1,
        ;
        vstd::arithmetic::div_mod::lemma_fundamental_div_mod_converse(k as int, n as int, (q + 1) as int, 0);
    } else {
        assert(k == q * n + (r + 1)) by (nonlinear_arith)
            requires
                j == n * q + r,
                k == j + 1,
        ;
        vstd::arithmetic::div_mod::lemma_fundamental_div_mod_converse(k as int, n as int, q as int, (r + 1) as int);
    }
}

/// Counts records and the fsync calls a policy asks for.
pub struct JournalWriter {
    pub records: usize,
    pub fsync_calls: u32,
    policy: FsyncPolicy,
    since_fsync: u32,
}

impl JournalWriter {
    pub closed spec fn record_count(&self) -> usize {
        self.records
    }

    pub closed spec fn fsync_count(&self) -> u32 {
        self.fsync_calls
    }

    pub closed spec fn policy_of(&self) -> FsyncPolicy {
        self.policy
    }

    /// Records appended since the last fsync.
    pub closed spec fn pending(&self) -> u32 {
        self.since_fsync
    }

    pub fn new(policy: FsyncPolicy) -> (r: Self)
        ensures
            r.record_count() == 0,
            r.fsync_count() == 0,
            r.policy_of() == policy,
            r.pending() == 0,
    {
        JournalWriter { records: 0, fsync_calls: 0, policy, since_fsync: 0 }
    }

    /// Records appended since the last fsync.
    pub fn pending_records(&self) -> (r: u32)
        ensures
            r == self.pending(),
    {
        self.since_fsync
    }

    /// Whether the next append will fsync.
    pub fn fsync_due_next(&self) -> (r: bool)
        ensures
            r == fsync_due(self.policy_of(), self.pending() as nat),
    {
        match self.policy {
            FsyncPolicy::Always => true,
            FsyncPolicy::EveryN(n) => self.since_fsync as u64 + 1 >= n as u64,
            FsyncPolicy::OsDefault => false,
        }
    }

    /// Appends a record; fsyncs when the policy asks for it.
    pub fn append(&mut self, _payload: &[u8])
        requires
            old(self).record_count() < usize::MAX,
            old(self).pending() < u32::MAX,
            fsync_due(old(self).policy_of(), old(self).pending() as nat) ==> old(self).fsync_count() < u32::MAX,
        ensures
            final(self).policy_of() == old(self).policy_of(),
            (final(self).record_count() as nat, final(self).fsync_count() as nat, final(self).pending() as nat)
                == writer_step(old(self).policy_of(), (old(self).record_count() as nat, old(self).fsync_count() as nat, old(self).pending() as nat)),
    {
        self.records = self.records + 1;
        self.since_fsync = self.since_fsync + 1;
        match self.policy {
            FsyncPolicy::Always => self.fsync(),
            FsyncPolicy::EveryN(n) => {
                if self.since_fsync >= n {
                    self.fsync();
                }
            },
            FsyncPolicy::OsDefault => {},
        }
    }

    fn fsync(&mut self)
        requires
            old(self).fsync_calls < u32::MAX,
        ensures
            final(self).fsync_calls == old(self).fsync_calls + 1,
            final(self).since_fsync == 0,
            final(self).records == old(self).records,
            final(self).policy == old(self).policy,
    {
        self.fsync_calls = self.fsync_calls + 1;
        self.since_fsync = 0;
    }
}

/// A fixed-size record: sequence number and price.
#[derive(Clone, Copy, Debug)]
pub struct Tick {
    pub seq: u64,
    pub px: i64,
}

/// The tick framed in the 16 bytes at `16 * i`: two little-endian words.
pub open spec fn tick_at(buf: Seq<u8>, i: int) -> Tick {
    Tick {
        seq: le_value(buf.subrange(16 * i, 16 * i + 8)) as u64,
        px: (le_value(buf.subrange(16 * i + 8, 16 * i + 16)) as u64) as i64,
    }
}

/// Decodes every whole 16-byte frame of what was read; a trailing partial frame is
/// dropped.
pub fn read_loop(buf: &[u8]) -> (r: Vec<Tick>)
    ensures
        r@.len() == buf@.len() / 16,
        forall|i: int| 0 <= i < r@.len() ==> #[trigger] r@[i] == tick_at(buf@, i),
{
    let mut out: Vec<Tick> = Vec::new();
    let n = buf.len() / 16;
    let mut i: usize = 0;
    while i < n
        invariant
            i <= n,
            n == buf@.len() / 16,
            buf@.len() == buf.len(),
            out@.len() == i,
            forall|j: int| 0 <= j < i ==> #[trigger] out@[j] == tick_at(buf@, j),
        decreases n - i,
    {
        assert(16 * i + 16 <= buf@.len()) by (nonlinear_arith)
            requires
                i < n,
                n == buf@.len() / 16,
        ;
        let seq = read_le(buf, 16 * i, 8);
        let px_bits = read_le(buf, 16 * i + 8, 8);
        out.push(Tick { seq, px: #[verifier::truncate] (px_bits as i64) });
        i = i + 1;
    }
    out
}

/// The data from `offset` on.
pub fn tail_from_offset(data: &[u8], offset: u64) -> (r: &[u8])
    requires
        offset <= data@.len(),
    ensures
        r@ == data@.subrange(offset as int, data@.len() as int),
{
    vstd::slice::slice_subrange(data, offset as usize, data.len())
}

} // verus!
