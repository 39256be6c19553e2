//! File I/O pitfalls and their fixes: streaming line counts, buffered reads, journal
//! writes, path joins that cannot escape their base, and disk-full handling.
use vstd::prelude::*;
use vstd::string::StringSliceAdditionalSpecFns;
use crate::decimal::lines_from;

pub mod blocking_in_async;
pub mod concurrent_writers;

verus! {

/// Counts the lines of the data as a line reader yields them.
pub fn good_line_count(data: &[u8]) -> (n: usize)
    ensures
        n == lines_from(data@, 0).len(),
{
    let mut pos: usize = 0;
    let mut n: usize = 0;
    while pos < data.len()
        invariant
            pos <= data@.len(),
            n <= pos,
            lines_from(data@, 0).len() == n + lines_from(data@, pos as nat).len(),
        decreases data@.len() - pos,
    {
        let e = crate::decimal::find_newline(data, pos);
        proof {
            crate::decimal::lemma_newline_at(data@, pos as nat);
            if e >= data.len() {
                assert(lines_from(data@, pos as nat).len() == 1);
            }
        }
        n = n + 1;
        pos = if e < data.len() { e + 1 } else { e };
        proof {
            if pos == data.len() {
                assert(lines_from(data@, pos as nat).len() == 0);
            }
        }
    }
    n
}

/// Reads the data one byte at a time and counts the reads that returned a byte.
pub fn bad_count(data: &[u8]) -> (n: usize)
    ensures
        n == data@.len(),
{
    let mut n: usize = 0;
    while n < data.len()
        invariant
            n <= data@.len(),
        decreases data@.len() - n,
    {
        n = n + 1;
    }
    n
}

/// The capacity of a line reader's buffer: 8 KiB.
pub const READER_CAPACITY: usize = 8192;

/// What one fill of a fresh 8 KiB read buffer holds: the data up to the capacity.
pub fn good_count(data: &[u8]) -> (n: usize)
    ensures
        n == (if data@.len() < READER_CAPACITY { data@.len() } else { READER_CAPACITY as nat }),
{
    if data.len() < READER_CAPACITY {
        data.len()
    } else {
        READER_CAPACITY
    }
}

/// Writes a record and its newline.
pub fn bad_journal(out: &mut Vec<u8>, record: &str)
    ensures
        final(out)@ == old(out)@ + record.spec_bytes() + seq![10u8],
{
    let b = record.as_bytes();
    let ghost o0 = out@;
    let mut i: usize = 0;
    while i < b.len()
        invariant
            i <= b@.len(),
            out@ == o0 + b@.subrange(0, i as int),
        decreases b@.len() - i,
    {
        out.push(b[i]);
        i = i + 1;
        assert(out@ =~= o0 + b@.subrange(0, i as int));
    }
    out.push(10);
    assert(out@ =~= o0 + record.spec_bytes() + seq![10u8]);
}

/// Writes a record and its newline, then flushes; a byte vector has nothing to flush.
pub fn good_journal(out: &mut Vec<u8>, record: &str)
    ensures
        final(out)@ == old(out)@ + record.spec_bytes() + seq![10u8],
{
    bad_journal(out, record);
}

/// The components of a path as `Path::components` gives them on Unix, from byte `i`
/// on: the parts between slashes, empty parts and `.` left out, `..` kept.
pub open spec fn segs_from(p: Seq<u8>, i: nat) -> Seq<Seq<u8>>
    decreases p.len() - i,
{
    if i >= p.len() {
        Seq::empty()
    } else {
        let e = slash_at(p, i);
        let s = p.subrange(i as int, e as int);
        let rest = if i <= e < p.len() { segs_from(p, e + 1) } else { Seq::empty() };
        if s.len() == 0 || s == seq![46u8] { rest } else { seq![s] + rest }
    }
}

/// The index of the first slash at or after `i`, or the end.
pub open spec fn slash_at(p: Seq<u8>, i: nat) -> nat
    decreases p.len() - i,
{
    if i >= p.len() {
        p.len()
    } else if p[i as int] == 47 {
        i
    } else {
        slash_at(p, i + 1)
    }
}

/// The components of a path: `/` for the root of an absolute path, `.` for a leading
/// current directory, then its parts.
pub open spec fn comps_spec(p: Seq<u8>) -> Seq<Seq<u8>> {
    if p.len() > 0 && p[0] == 47 {
        seq![seq![47u8]] + segs_from(p, 1)
    } else if p.len() > 0 && p[0] == 46 && (p.len() == 1 || p[1] == 47) {
        seq![seq![46u8]] + segs_from(p, 1)
    } else {
        segs_from(p, 0)
    }
}

/// `base` joined with `input`: an absolute input replaces the base.
pub open spec fn join_spec(base: Seq<u8>, input: Seq<u8>) -> Seq<u8> {
    if input.len() > 0 && input[0] == 47 {
        input
    } else if base.len() == 0 || base.last() == 47 {
        base + input
    } else {
        base + seq![47u8] + input
    }
}

/// Rebuilding a path component by component: `..` drops the last name, the root starts
/// over, `.` does nothing, a name is appended.
pub open spec fn normalize(cs: Seq<Seq<u8>>) -> Seq<Seq<u8>>
    decreases cs.len(),
{
    if cs.len() == 0 {
        Seq::empty()
    } else {
        let acc = normalize(cs.drop_last());
        let c = cs.last();
        if c == seq![46u8, 46u8] {
            if acc.len() > 0 && acc.last() != seq![47u8] { acc.drop_last() } else { acc }
        } else if c == seq![47u8] {
            seq![seq![47u8]]
        } else if c == seq![46u8] {
            acc
        } else {
            acc.push(c)
        }
    }
}

/// Names joined by slashes.
pub open spec fn join_names(cs: Seq<Seq<u8>>) -> Seq<u8>
    decreases cs.len(),
{
    if cs.len() == 0 {
        Seq::empty()
    } else if cs.len() == 1 {
        cs[0]
    } else {
        join_names(cs.drop_last()) + seq![47u8] + cs.last()
    }
}

/// The text of a path given by its components.
pub open spec fn render(cs: Seq<Seq<u8>>) -> Seq<u8> {
    if cs.len() > 0 && cs[0] == seq![47u8] {
        seq![47u8] + join_names(cs.drop_first())
    } else {
        join_names(cs)
    }
}

/// The views of a list of byte vectors.
pub open spec fn views(v: Seq<Vec<u8>>) -> Seq<Seq<u8>> {
    v.map_values(|x: Vec<u8>| x@)
}

proof fn lemma_slash_at(p: Seq<u8>, i: nat)
    ensures
        i <= p.len() ==> i <= slash_at(p, i) <= p.len(),
    decreases p.len() - i,
{
    if i < p.len() && p[i as int] != 47 {
        lemma_slash_at(p, i + 1);
    }
}

fn copy_range(p: &[u8], a: usize, b: usize) -> (r: Vec<u8>)
    requires
        a <= b <= p@.len(),
    ensures
        r@ == p@.subrange(a as int, b as int),
{
    let mut v: Vec<u8> = Vec::new();
    let mut i = a;
    while i < b
        invariant
            a <= i <= b <= p@.len(),
            v@ == p@.subrange(a as int, i as int),
        decreases b - i,
    {
        v.push(p[i]);
        i = i + 1;
        assert(v@ =~= p@.subrange(a as int, i as int));
    }
    v
}

/// The components of a path.
pub fn components(p: &[u8]) -> (r: Vec<Vec<u8>>)
    ensures
        views(r@) == comps_spec(p@),
{
    let mut out: Vec<Vec<u8>> = Vec::new();
    let mut i: usize = 0;
    if p.len() > 0 && p[0] == 47 {
        let root: Vec<u8> = vec![47u8];
        assert(root@ =~= seq![47u8]);
        out.push(root);
        assert(views(out@) =~= seq![seq![47u8]]);
        i = 1;
    } else if p.len() > 0 && p[0] == 46 && (p.len() == 1 || p[1] == 47) {
        let cur: Vec<u8> = vec![46u8];
        assert(cur@ =~= seq![46u8]);
        out.push(cur);
        assert(views(out@) =~= seq![seq![46u8]]);
        i = 1;
    } else {
        assert(views(out@) =~= Seq::<Seq<u8>>::empty());
    }
    let ghost head = views(out@);
    assert(comps_spec(p@) == head + segs_from(p@, i as nat));
    while i < p.len()
        invariant
            i <= p@.len(),
            comps_spec(p@) == views(out@) + segs_from(p@, i as nat),
        decreases p@.len() - i,
    {
        let mut e = i;
        while e < p.len() && p[e] != 47
            invariant
                i <= e <= p@.len(),
                slash_at(p@, i as nat) == slash_at(p@, e as nat),
            decreases p@.len() - e,
        {
            e = e + 1;
        }
        proof {
            lemma_slash_at(p@, i as nat);
        }
        let s = copy_range(p, i, e);
        let skip = s.len() == 0 || (s.len() == 1 && s[0] == 46);
        proof {
            if s@.len() == 1 && s@[0] == 46 {
                assert(s@ =~= seq![46u8]);
            }
            if !skip {
                assert(s@ != seq![46u8]);
            }
        }
        if !skip {
            let ghost before = views(out@);
            out.push(s);
            assert(views(out@) =~= before.push(s@));
        }
        proof {
            let rest = if e < p@.len() { segs_from(p@, (e + 1) as nat) } else { Seq::empty() };
            if e >= p@.len() {
                assert(segs_from(p@, e as nat) =~= Seq::<Seq<u8>>::empty());
            }
            assert(comps_spec(p@) =~= views(out@) + rest);
        }
        i = if e < p.len() { e + 1 } else { e };
    }
    assert(segs_from(p@, i as nat) =~= Seq::<Seq<u8>>::empty());
    assert(views(out@) =~= comps_spec(p@));
    out
}

/// Joins `base` and `input` without normalising: `../` in the input climbs out of the
/// base.
pub fn bad_join(base: &[u8], user_input: &[u8]) -> (r: Vec<u8>)
    ensures
        r@ == join_spec(base@, user_input@),
{
    if user_input.len() > 0 && user_input[0] == 47 {
        return copy_range(user_input, 0, user_input.len());
    }
    let mut out = copy_range(base, 0, base.len());
    if base.len() > 0 && base[base.len() - 1] != 47 {
        out.push(47);
    }
    let ghost o0 = out@;
    let mut i: usize = 0;
    while i < user_input.len()
        invariant
            i <= user_input@.len(),
            out@ == o0 + user_input@.subrange(0, i as int),
        decreases user_input@.len() - i,
    {
        out.push(user_input[i]);
        i = i + 1;
        assert(out@ =~= o0 + user_input@.subrange(0, i as int));
    }
    assert(user_input@.subrange(0, user_input@.len() as int) =~= user_input@);
    assert(out@ =~= join_spec(base@, user_input@));
    out
}

fn bytes_equal(a: &Vec<u8>, b: &[u8]) -> (r: bool)
    ensures
        r == (a@ == b@),
{
    crate::merkle_patricia::bytes_eq(a.as_slice(), b)
}

/// Rebuilds a path from its components.
fn normalize_exec(cs: &Vec<Vec<u8>>) -> (r: Vec<Vec<u8>>)
    ensures
        views(r@) == normalize(views(cs@)),
{
    let mut acc: Vec<Vec<u8>> = Vec::new();
    let mut i: usize = 0;
    while i < cs.len()
        invariant
            i <= cs@.len(),
            views(acc@) == normalize(views(cs@).subrange(0, i as int)),
        decreases cs@.len() - i,
    {
        let ghost pre = views(cs@).subrange(0, i + 1);
        assert(pre.drop_last() =~= views(cs@).subrange(0, i as int));
        assert(pre.last() == cs@[i as int]@);
        assert([46u8, 46u8]@ =~= seq![46u8, 46u8]);
        assert([47u8]@ =~= seq![47u8]);
        assert([46u8]@ =~= seq![46u8]);
        let c = &cs[i];
        let is_parent = bytes_equal(c, &[46u8, 46u8]);
        let is_root = bytes_equal(c, &[47u8]);
        let is_cur = bytes_equal(c, &[46u8]);
        let ghost before = views(acc@);
        if is_parent {
            assert(c@ == seq![46u8, 46u8]);
            if acc.len() > 0 && !bytes_equal(&acc[acc.len() - 1], &[47u8]) {
                acc.pop();
                assert(views(acc@) =~= before.drop_last());
            }
        } else if is_root {
            assert(c@ == seq![47u8]);
            acc = Vec::new();
            let root: Vec<u8> = vec![47u8];
            assert(root@ =~= seq![47u8]);
            acc.push(root);
            assert(views(acc@) =~= seq![seq![47u8]]);
        } else if is_cur {
            assert(c@ == seq![46u8]);
        } else {
            let cp = copy_range(c.as_slice(), 0, c.len());
            assert(c@.subrange(0, c@.len() as int) =~= c@);
            acc.push(cp);
            assert(views(acc@) =~= before.push(c@));
        }
        i = i + 1;
    }
    assert(views(cs@).subrange(0, cs@.len() as int) =~= views(cs@));
    acc
}

/// Writes a path from its components.
fn render_exec(cs: &Vec<Vec<u8>>) -> (r: Vec<u8>)
    ensures
        r@ == render(views(cs@)),
{
    let mut out: Vec<u8> = Vec::new();
    let mut start: usize = 0;
    if cs.len() > 0 && bytes_equal(&cs[0], &[47u8]) {
        out.push(47);
        start = 1;
    }
    assert([47u8]@ =~= seq![47u8]);
    let ghost lead = out@;
    let ghost names = if start == 1 { views(cs@).drop_first() } else { views(cs@) };
    let mut i: usize = start;
    while i < cs.len()
        invariant
            start <= i <= cs@.len(),
            start <= 1,
            names == views(cs@).subrange(start as int, cs@.len() as int),
            out@ == lead + join_names(names.subrange(0, i - start)),
        decreases cs@.len() - i,
    {
        let ghost before = out@;
        if i > start {
            out.push(47);
        }
        let c = &cs[i];
        let mut k: usize = 0;
        let ghost mid = out@;
        while k < c.len()
            invariant
                k <= c@.len(),
                out@ == mid + c@.subrange(0, k as int),
            decreases c@.len() - k,
        {
            out.push(c[k]);
            k = k + 1;
            assert(out@ =~= mid + c@.subrange(0, k as int));
        }
        proof {
            let sub = names.subrange(0, i + 1 - start);
            assert(sub.drop_last() =~= names.subrange(0, i - start));
            assert(sub.last() == c@);
            assert(c@.subrange(0, c@.len() as int) =~= c@);
            if i == start {
                assert(out@ =~= lead + join_names(sub));
            } else {
                assert(out@ =~= lead + join_names(sub));
            }
        }
        i = i + 1;
    }
    assert(names.subrange(0, cs@.len() - start) =~= names);
    proof {
        if start == 1 {
            assert(views(cs@)[0] == seq![47u8]);
            assert(lead =~= seq![47u8]);
        } else {
            assert(lead =~= Seq::<u8>::empty());
            if cs@.len() > 0 {
                assert(views(cs@)[0] != seq![47u8]);
            }
        }
        assert(out@ =~= render(views(cs@)));
    }
    out
}

/// A normalised path is clean: it holds no `.` or `..` component, and the root, if any,
/// only at its start. So a path that `good_join` keeps names nothing above `base`.
pub proof fn lemma_normalize_clean(cs: Seq<Seq<u8>>)
    ensures
        forall|i: int| 0 <= i < normalize(cs).len() ==> {
            &&& #[trigger] normalize(cs)[i] != seq![46u8, 46u8]
            &&& normalize(cs)[i] != seq![46u8]
            &&& i > 0 ==> normalize(cs)[i] != seq![47u8]
        },
    decreases cs.len(),
{
    if cs.len() > 0 {
        lemma_normalize_clean(cs.drop_last());
        let acc = normalize(cs.drop_last());
        let c = cs.last();
        if c == seq![46u8, 46u8] {
            if acc.len() > 0 && acc.last() != seq![47u8] {
                assert forall|i: int| 0 <= i < acc.len() - 1 implies #[trigger] acc.drop_last()[i] == acc[i] by {}
            }
        } else if c == seq![47u8] {
            let root = seq![47u8];
            assert(root.len() != seq![46u8, 46u8].len());
            assert(root[0] != seq![46u8][0]);
            assert(normalize(cs) == seq![root]);
        } else if c == seq![46u8] {
        } else {
            assert forall|i: int| 0 <= i < acc.len() implies #[trigger] acc.push(c)[i] == acc[i] by {}
            assert(normalize(cs) == acc.push(c));
        }
    }
}

/// Whether `pre` is a prefix of `cs`, component by component.
pub open spec fn comps_prefix(pre: Seq<Seq<u8>>, cs: Seq<Seq<u8>>) -> bool {
    pre.len() <= cs.len() && forall|i: int| 0 <= i < pre.len() ==> #[trigger] pre[i] == cs[i]
}

/// Joins `base` and `input`, normalises `.` and `..`, and keeps the result only if it
/// still lies under `base`.
pub fn good_join(base: &[u8], user_input: &[u8]) -> (r: Option<Vec<u8>>)
    ensures
        ({
            let canon = normalize(comps_spec(join_spec(base@, user_input@)));
            match r {
                Some(p) => comps_prefix(comps_spec(base@), canon) && p@ == render(canon) && forall|i: int|
                    0 <= i < canon.len() ==> #[trigger] canon[i] != seq![46u8, 46u8] && canon[i] != seq![46u8],
                None => !comps_prefix(comps_spec(base@), canon),
            }
        }),
{
    let joined = bad_join(base, user_input);
    let cs = components(joined.as_slice());
    let canon = normalize_exec(&cs);
    let bcs = components(base);
    assert(views(canon@) == normalize(comps_spec(join_spec(base@, user_input@))));
    assert(views(bcs@).len() == bcs@.len() && views(canon@).len() == canon@.len());
    if bcs.len() > canon.len() {
        return None;
    }
    let mut i: usize = 0;
    while i < bcs.len()
        invariant
            i <= bcs@.len() <= canon@.len(),
            views(canon@) == normalize(comps_spec(join_spec(base@, user_input@))),
            views(bcs@) == comps_spec(base@),
            forall|j: int| 0 <= j < i ==> #[trigger] views(bcs@)[j] == views(canon@)[j],
        decreases bcs@.len() - i,
    {
        if !bytes_equal(&bcs[i], canon[i].as_slice()) {
            assert(views(bcs@)[i as int] != views(canon@)[i as int]);
            return None;
        }
        i = i + 1;
    }
    proof {
        lemma_normalize_clean(comps_spec(join_spec(base@, user_input@)));
    }
    Some(render_exec(&canon))
}

/// How a write ended.
#[derive(Clone, Copy, PartialEq, Eq, Structural, Debug)]
pub enum WriteResult {
    Written,
    DiskFull,
    Other,
}

/// Classifies a failed write by its OS error code: 28 (ENOSPC) is a full disk.
pub fn classify(raw_os_error: Option<i32>) -> (r: WriteResult)
    ensures
        r == (if raw_os_error == Some(28i32) { WriteResult::DiskFull } else { WriteResult::Other }),
{
    match raw_os_error {
        Some(28) => WriteResult::DiskFull,
        _ => WriteResult::Other,
    }
}

/// What to do after a write.
pub fn good_handler(res: WriteResult) -> (r: &'static str)
    ensures
        r@ == match res {
            WriteResult::DiskFull => "停写 + 告警 + 只读降级 + 清理旧分片"@,
            WriteResult::Written => "继续"@,
            WriteResult::Other => "重试/上报"@,
        },
{
    match res {
        WriteResult::DiskFull => "停写 + 告警 + 只读降级 + 清理旧分片",
        WriteResult::Written => "继续",
        WriteResult::Other => "重试/上报",
    }
}

} // verus!
