//! General file I/O strategies: fixed-stride records, streaming line counts, journals
//! with an fsync mode, partitioned paths, replay, versioned reloads and metrics.
use vstd::prelude::*;
use crate::decimal::{lines_from, parse_i64_spec, parse_i64};
use crate::file_io::basics::is_utf8;
use crate::file_io::pitfalls::{join_spec, bad_join};
use crate::generics::pitfalls::utf8_view;
use vstd::string::StringSliceAdditionalSpecFns;

verus! {

/// How many whole records of `stride` bytes the data holds.
pub fn stride_records(data: &[u8], stride: usize) -> (n: usize)
    requires
        stride > 0,
    ensures
        n == data@.len() / (stride as nat),
{
    data.len() / stride
}

/// Record `i` of `stride` bytes, if it lies wholly within the data.
pub fn get_record<'a>(data: &'a [u8], stride: usize, i: usize) -> (r: Option<&'a [u8]>)
    requires
        i * stride <= usize::MAX ==> i * stride + stride <= usize::MAX,
    ensures
        i * stride > usize::MAX ==> r is None,
        i * stride <= usize::MAX ==> match r {
            Some(s) => i * stride + stride <= data@.len() && s@ == data@.subrange(i * stride, i * stride + stride),
            None => i * stride + stride > data@.len(),
        },
{
    let off = match i.checked_mul(stride) {
        Some(o) => o,
        None => {
            return None;
        },
    };
    let end = off + stride;
    if end <= data.len() {
        Some(vstd::slice::slice_subrange(data, off, end))
    } else {
        None
    }
}

/// The number of lines among `ls` that are UTF-8 and not empty.
pub open spec fn count_good_lines(ls: Seq<Seq<u8>>) -> nat
    decreases ls.len(),
{
    if ls.len() == 0 {
        0
    } else {
        count_good_lines(ls.drop_last()) + if is_utf8(ls.last()) && ls.last().len() > 0 { 1nat } else { 0nat }
    }
}

/// Counts the lines that read as text and are not empty.
pub fn count_nonempty_lines(data: &[u8]) -> (n: usize)
    ensures
        n == count_good_lines(lines_from(data@, 0)),
{
    let ghost all = lines_from(data@, 0);
    let mut pos: usize = 0;
    let mut n: usize = 0;
    let ghost mut done: Seq<Seq<u8>> = Seq::empty();
    while pos < data.len()
        invariant
            pos <= data@.len(),
            all == done + lines_from(data@, pos as nat),
            n == count_good_lines(done),
            n <= done.len(),
            done.len() <= pos,
        decreases data@.len() - pos,
    {
        let e = crate::decimal::find_newline(data, pos);
        proof {
            crate::decimal::lemma_newline_at(data@, pos as nat);
        }
        let line = if e < data.len() {
            crate::decimal::line_slice(data, pos, e)
        } else {
            vstd::slice::slice_subrange(data, pos, e)
        };
        let good = match utf8_view(line) {
            Some(_) => line.len() > 0,
            None => false,
        };
        proof {
            let nd = done.push(line@);
            assert(nd.drop_last() =~= done);
            if e < data@.len() {
                assert(all =~= nd + lines_from(data@, (e + 1) as nat));
            } else {
                assert(lines_from(data@, e as nat) =~= Seq::<Seq<u8>>::empty());
                assert(all =~= nd + lines_from(data@, e as nat));
            }
            if good {
                assert(is_utf8(line@));
            }
            done = nd;
        }
        if good {
            n = n + 1;
        }
        pos = if e < data.len() { e + 1 } else { e };
    }
    assert(lines_from(data@, pos as nat) =~= Seq::<Seq<u8>>::empty());
    assert(done =~= all);
    n
}

/// When an append-only journal syncs.
#[derive(Clone, Copy, PartialEq, Eq, Structural, Debug)]
pub enum FsyncMode {
    Always,
    Every(u32),
}

/// Whether the entry appended after `pending` unsynced ones is due for a sync.
pub open spec fn sync_due(mode: FsyncMode, pending: nat) -> bool {
    match mode {
        FsyncMode::Always => true,
        FsyncMode::Every(n) => pending + 1 >= n,
    }
}

/// Entries, syncs and unsynced entries after one more append.
pub open spec fn journal_step(mode: FsyncMode, c: (nat, nat, nat)) -> (nat, nat, nat) {
    if sync_due(mode, c.2) {
        (c.0 + 1, c.1 + 1, 0)
    } else {
        (c.0 + 1, c.1, c.2 + 1)
    }
}

/// Entries, syncs and unsynced entries after `k` appends to a new journal.
pub open spec fn journal_counts(mode: FsyncMode, k: nat) -> (nat, nat, nat)
    decreases k,
{
    if k == 0 {
        (0, 0, 0)
    } else {
        journal_step(mode, journal_counts(mode, (k - 1) as nat))
    }
}

/// After `k` appends a journal holds `k` entries and has synced `k` times under
/// `Always` or `Every(0)` and `k / n` times under `Every(n)`.
pub proof fn lemma_journal_counts(mode: FsyncMode, k: nat)
    ensures
        journal_counts(mode, k).0 == k,
        journal_counts(mode, k).1 == match mode {
            FsyncMode::Always => k,
            FsyncMode::Every(n) => if n == 0 { k } else { k / (n as nat) },
        },
        journal_counts(mode, k).2 == match mode {
            FsyncMode::Always => 0,
            FsyncMode::Every(n) => if n == 0 { 0 } else { k % (n as nat) },
        },
    decreases k,
{
    if k > 0 {
        lemma_journal_counts(mode, (k - 1) as nat);
        if let FsyncMode::Every(n) = mode {
            if n > 0 {
                crate::file_io::basics::lemma_count_step(k, n as nat);
            }
        }
    }
}

/// Entry and sync counters of an append-only journal.
pub struct Journal {
    pub entries: u32,
    pub fsyncs: u32,
    mode: FsyncMode,
    since: u32,
}

impl Journal {
    pub closed spec fn entry_count(&self) -> u32 {
        self.entries
    }

    pub closed spec fn fsync_count(&self) -> u32 {
        self.fsyncs
    }

    pub closed spec fn pending(&self) -> u32 {
        self.since
    }

    pub closed spec fn mode_of(&self) -> FsyncMode {
        self.mode
    }

    pub fn new(mode: FsyncMode) -> (r: Self)
        ensures
            r.entry_count() == 0 && r.fsync_count() == 0 && r.pending() == 0,
            r.mode_of() == mode,
    {
        Journal { entries: 0, fsyncs: 0, mode, since: 0 }
    }

    /// Entries appended since the last sync.
    pub fn pending_entries(&self) -> (r: u32)
        ensures
            r == self.pending(),
    {
        self.since
    }

    /// Whether the next append will sync.
    pub fn sync_due_next(&self) -> (r: bool)
        ensures
            r == sync_due(self.mode_of(), self.pending() as nat),
    {
        match self.mode {
            FsyncMode::Always => true,
            FsyncMode::Every(n) => self.since as u64 + 1 >= n as u64,
        }
    }

    /// Appends an entry and syncs when the mode asks for it.
    pub fn append(&mut self)
        requires
            old(self).entry_count() < u32::MAX,
            old(self).pending() < u32::MAX,
            sync_due(old(self).mode_of(), old(self).pending() as nat) ==> old(self).fsync_count() < u32::MAX,
        ensures
            final(self).mode_of() == old(self).mode_of(),
            (final(self).entry_count() as nat, final(self).fsync_count() as nat, final(self).pending() as nat)
                == journal_step(old(self).mode_of(), (old(self).entry_count() as nat, old(self).fsync_count() as nat, old(self).pending() as nat)),
    {
        self.entries = self.entries + 1;
        self.since = self.since + 1;
        match self.mode {
            FsyncMode::Always => self.sync(),
            FsyncMode::Every(n) => {
                if self.since >= n {
                    self.sync();
                }
            },
        }
    }

    fn sync(&mut self)
        requires
            old(self).fsyncs < u32::MAX,
        ensures
            final(self).fsyncs == old(self).fsyncs + 1,
            final(self).since == 0,
            final(self).entries == old(self).entries,
            final(self).mode == old(self).mode,
    {
        self.fsyncs = self.fsyncs + 1;
        self.since = 0;
    }
}

/// Where the files of a partitioned archive live: `{root}/{date}/{symbol}.bin` and
/// `{root}/{symbol}.offset`, paths as bytes.
pub struct PartitionLayout {
    pub root: Vec<u8>,
}

impl PartitionLayout {
    /// The tick file of `symbol` on `date`.
    pub fn tick_path(&self, date: &str, symbol: &str) -> (r: Vec<u8>)
        ensures
            r@ == join_spec(join_spec(self.root@, date.spec_bytes()), symbol.spec_bytes() + ".bin".spec_bytes()),
    {
        let dir = bad_join(self.root.as_slice(), date.as_bytes());
        let name = concat(symbol.as_bytes(), ".bin".as_bytes());
        bad_join(dir.as_slice(), name.as_slice())
    }

    /// The offset file of `symbol`.
    pub fn offset_path(&self, symbol: &str) -> (r: Vec<u8>)
        ensures
            r@ == join_spec(self.root@, symbol.spec_bytes() + ".offset".spec_bytes()),
    {
        let name = concat(symbol.as_bytes(), ".offset".as_bytes());
        bad_join(self.root.as_slice(), name.as_slice())
    }
}

/// Two byte strings one after the other.
fn concat(a: &[u8], b: &[u8]) -> (r: Vec<u8>)
    ensures
        r@ == a@ + b@,
{
    let mut v: Vec<u8> = Vec::new();
    let mut i: usize = 0;
    while i < a.len()
        invariant
            i <= a@.len(),
            v@ == a@.subrange(0, i as int),
        decreases a@.len() - i,
    {
        v.push(a[i]);
        i = i + 1;
        assert(v@ =~= a@.subrange(0, i as int));
    }
    let mut j: usize = 0;
    while j < b.len()
        invariant
            j <= b@.len(),
            v@ == a@ + b@.subrange(0, j as int),
        decreases b@.len() - j,
    {
        v.push(b[j]);
        j = j + 1;
        assert(v@ =~= a@ + b@.subrange(0, j as int));
    }
    assert(a@.subrange(0, a@.len() as int) =~= a@);
    assert(b@.subrange(0, b@.len() as int) =~= b@);
    v
}

/// A replayed value.
#[derive(Clone, Copy, Debug)]
pub struct State {
    pub value: i64,
}

impl State {
    pub fn default() -> (r: Self)
        ensures
            r.value == 0,
    {
        State { value: 0 }
    }
}

/// The value after adding the deltas of the first `k` lines.
pub open spec fn replay_sum(wal: Seq<&str>, v: i64, k: nat) -> int
    decreases k,
{
    if k == 0 || k > wal.len() {
        v as int
    } else {
        replay_sum(wal, v, (k - 1) as nat) + parse_i64_spec(wal[k - 1].spec_bytes())->0
    }
}

/// Every line parses as an `i64` and no running sum overflows.
/// Replaying from `v` adds the same deltas as replaying from zero.
pub proof fn lemma_replay_from(wal: Seq<&str>, v: i64, k: nat)
    ensures
        replay_sum(wal, v, k) == v + replay_sum(wal, 0, k),
    decreases k,
{
    if k > 0 && k <= wal.len() {
        lemma_replay_from(wal, v, (k - 1) as nat);
        lemma_replay_from(wal, 0, (k - 1) as nat);
    }
}

/// Replaying one log after another is replaying the two logs joined: the value after
/// `a ++ b` is the value after `a` with the deltas of `b` added.
pub proof fn lemma_replay_concat(a: Seq<&str>, b: Seq<&str>, v: i64)
    ensures
        replay_sum(a + b, v, (a.len() + b.len()) as nat) == replay_sum(a, v, a.len()) + replay_sum(b, 0, b.len()),
{
    lemma_replay_concat_prefix(a, b, v, b.len());
}

proof fn lemma_replay_concat_prefix(a: Seq<&str>, b: Seq<&str>, v: i64, k: nat)
    requires
        k <= b.len(),
    ensures
        replay_sum(a + b, v, (a.len() + k) as nat) == replay_sum(a, v, a.len()) + replay_sum(b, 0, k),
    decreases k,
{
    if k == 0 {
        lemma_replay_prefix_same(a, b, v, a.len());
    } else {
        lemma_replay_concat_prefix(a, b, v, (k - 1) as nat);
        assert((a + b)[a.len() + k - 1] == b[k - 1]);
    }
}

proof fn lemma_replay_prefix_same(a: Seq<&str>, b: Seq<&str>, v: i64, k: nat)
    requires
        k <= a.len(),
    ensures
        replay_sum(a + b, v, k) == replay_sum(a, v, k),
    decreases k,
{
    if k > 0 {
        lemma_replay_prefix_same(a, b, v, (k - 1) as nat);
        assert((a + b)[k - 1] == a[k - 1]);
    }
}

pub open spec fn replay_ok(wal: Seq<&str>, v: i64) -> bool {
    &&& forall|i: int| 0 <= i < wal.len() ==> parse_i64_spec((#[trigger] wal[i]).spec_bytes()) is Some
    &&& forall|k: nat| k <= wal.len() ==> i64::MIN <= #[trigger] replay_sum(wal, v, k) <= i64::MAX
}

/// Adds the delta of every WAL line to the state.
pub fn replay(wal: &[&str], st: State) -> (r: State)
    requires
        replay_ok(wal@, st.value),
    ensures
        r.value == replay_sum(wal@, st.value, wal@.len()),
{
    let mut v = st.value;
    let mut i: usize = 0;
    while i < wal.len()
        invariant
            i <= wal@.len(),
            replay_ok(wal@, st.value),
            v == replay_sum(wal@, st.value, i as nat),
        decreases wal@.len() - i,
    {
        let line: &str = wal[i];
        let d = match parse_i64(line.as_bytes()) {
            Some(d) => d,
            None => {
                assert(parse_i64_spec(wal@[i as int].spec_bytes()) is Some);
                return State { value: v };
            },
        };
        assert(replay_sum(wal@, st.value, (i + 1) as nat) == v + d);
        v = v + d;
        i = i + 1;
    }
    State { value: v }
}

/// A reloaded configuration is taken only if its version is newer.
pub fn accept_new(old_ver: u64, new_ver: u64) -> (r: bool)
    ensures
        r == (new_ver > old_ver),
{
    new_ver > old_ver
}

/// I/O health counters.
#[derive(Clone, Copy, Debug)]
pub struct Metrics {
    pub bytes_written: u64,
    pub fsync_latency_us: u64,
    pub enospc_errors: u64,
    pub reload_count: u64,
}

impl Metrics {
    pub fn default() -> (r: Self)
        ensures
            r.bytes_written == 0 && r.fsync_latency_us == 0 && r.enospc_errors == 0 && r.reload_count == 0,
    {
        Metrics { bytes_written: 0, fsync_latency_us: 0, enospc_errors: 0, reload_count: 0 }
    }

    /// Counts `n` bytes written and remembers the last fsync latency.
    pub fn record_write(&mut self, n: usize, fsync_us: u64)
        requires
            old(self).bytes_written + n <= u64::MAX,
        ensures
            final(self).bytes_written == old(self).bytes_written + n,
            final(self).fsync_latency_us == fsync_us,
            final(self).enospc_errors == old(self).enospc_errors,
            final(self).reload_count == old(self).reload_count,
    {
        self.bytes_written = self.bytes_written + n as u64;
        self.fsync_latency_us = fsync_us;
    }
}

/// The anti-patterns to avoid.
pub fn list() -> (r: [&'static str; 4])
    ensures
        r@.len() == 4,
        r@[0]@ == "大快照 read_to_end → OOM"@,
        r@[1]@ == "配置原地 truncate 写 → 半写 crash"@,
        r@[2]@ == "async worker 里 sync fsync → 阻塞"@,
        r@[3]@ == "无 ENOSPC 处理 → 静默丢 WAL"@,
{
    [
        "大快照 read_to_end → OOM",
        "配置原地 truncate 写 → 半写 crash",
        "async worker 里 sync fsync → 阻塞",
        "无 ENOSPC 处理 → 静默丢 WAL",
    ]
}

} // verus!
