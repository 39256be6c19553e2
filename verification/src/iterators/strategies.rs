//! Reusable streaming patterns as verified loops: fixed-size record decoding, a
//! single-pass summary, a running maximum, grouping consecutive items by key, a k-way
//! merge, a short-circuiting checked sum, a budgeted take and an order-keeping dedup.
use vstd::prelude::*;
use vstd::laws_eq::obeys_concrete_eq;

verus! {

/// The values kept by a `filter_map`: the `Some`s, in order.
pub open spec fn somes<T>(s: Seq<Option<T>>) -> Seq<T>
    decreases s.len(),
{
    if s.len() == 0 {
        Seq::empty()
    } else {
        match s.last() {
            Some(v) => somes(s.drop_last()).push(v),
            None => somes(s.drop_last()),
        }
    }
}

/// Decodes each whole record of `record_size` bytes with `decode` and keeps what it
/// accepts; a trailing partial record is left out.
pub fn parse_records<T, F: Fn(&[u8]) -> Option<T>>(buf: &[u8], record_size: usize, decode: F) -> (r: Vec<T>)
    requires
        record_size > 0,
        forall|c: &[u8]| #[trigger] decode.requires((c,)),
    ensures
        exists|chunks: Seq<&[u8]>, outs: Seq<Option<T>>| #![trigger somes(outs), chunks.len()] {
            &&& chunks.len() == buf@.len() / (record_size as nat)
            &&& outs.len() == chunks.len()
            &&& forall|i: int| 0 <= i < chunks.len() ==> (#[trigger] chunks[i])@ == buf@.subrange(i * record_size, i * record_size + record_size)
                && decode.ensures((chunks[i],), outs[i])
            &&& r@ == somes(outs)
        },
{
    let n = buf.len() / record_size;
    let mut out: Vec<T> = Vec::new();
    let ghost mut chunks: Seq<&[u8]> = Seq::empty();
    let ghost mut outs: Seq<Option<T>> = Seq::empty();
    let mut i: usize = 0;
    while i < n
        invariant
            i <= n,
            n == buf@.len() / (record_size as nat),
            buf@.len() == buf.len(),
            record_size > 0,
            forall|c: &[u8]| #[trigger] decode.requires((c,)),
            chunks.len() == i,
            outs.len() == i,
            forall|k: int| 0 <= k < i ==> (#[trigger] chunks[k])@ == buf@.subrange(k * record_size, k * record_size + record_size)
                && decode.ensures((chunks[k],), outs[k]),
            out@ == somes(outs),
        decreases n - i,
    {
        assert(i * record_size + record_size <= buf@.len()) by (nonlinear_arith)
            requires
                i < n,
                n == buf@.len() / (record_size as nat),
                record_size > 0,
        ;
        let start = i * record_size;
        let chunk = vstd::slice::slice_subrange(buf, start, start + record_size);
        let o = decode(chunk);
        proof {
            let outs2 = outs.push(o);
            assert(outs2.drop_last() =~= outs);
            chunks = chunks.push(chunk);
        }
        match o {
            Some(v) => out.push(v),
            None => {},
        }
        proof {
            outs = outs.push(o);
        }
        i = i + 1;
    }
    out
}

/// Minimum, maximum, sum and count of the values.
pub open spec fn stats_spec(s: Seq<i64>) -> (int, int, int, int)
    decreases s.len(),
{
    if s.len() == 0 {
        (i64::MAX as int, i64::MIN as int, 0, 0)
    } else {
        let p = stats_spec(s.drop_last());
        let x = s.last();
        (if x < p.0 { x as int } else { p.0 }, if x > p.1 { x as int } else { p.1 }, p.2 + x, p.3 + 1)
    }
}

proof fn lemma_stats_range(s: Seq<i64>)
    ensures
        i64::MIN <= stats_spec(s).0 <= i64::MAX,
        i64::MIN <= stats_spec(s).1 <= i64::MAX,
        stats_spec(s).3 == s.len(),
    decreases s.len(),
{
    if s.len() > 0 {
        lemma_stats_range(s.drop_last());
    }
}

/// The running sums of the values fit in an `i64`.
pub open spec fn sums_fit_i64(s: Seq<i64>) -> bool {
    forall|k: int| 0 <= k <= s.len() ==> i64::MIN <= #[trigger] stats_spec(s.subrange(0, k)).2 <= i64::MAX
}

/// Minimum, maximum, sum and count in one pass; an empty input gives
/// `(i64::MAX, i64::MIN, 0, 0)`.
pub fn stats(values: &[i64]) -> (r: (i64, i64, i64, u64))
    requires
        sums_fit_i64(values@),
        values@.len() <= u64::MAX,
    ensures
        (r.0 as int, r.1 as int, r.2 as int, r.3 as int) == stats_spec(values@),
{
    let mut mn = i64::MAX;
    let mut mx = i64::MIN;
    let mut s: i64 = 0;
    let mut c: u64 = 0;
    let mut i: usize = 0;
    while i < values.len()
        invariant
            i <= values@.len(),
            values@.len() <= u64::MAX,
            sums_fit_i64(values@),
            (mn as int, mx as int, s as int, c as int) == stats_spec(values@.subrange(0, i as int)),
        decreases values@.len() - i,
    {
        let x = values[i];
        proof {
            assert(values@.subrange(0, i + 1).drop_last() =~= values@.subrange(0, i as int));
            lemma_stats_range(values@.subrange(0, i as int));
            assert(i64::MIN <= stats_spec(values@.subrange(0, i + 1)).2 <= i64::MAX);
        }
        if x < mn {
            mn = x;
        }
        if x > mx {
            mx = x;
        }
        s = s + x;
        c = c + 1;
        i = i + 1;
    }
    assert(values@.subrange(0, values@.len() as int) =~= values@);
    (mn, mx, s, c)
}

/// The largest value among the first `k`, starting from `i64::MIN`.
pub open spec fn max_prefix(s: Seq<i64>, k: nat) -> i64
    decreases k,
{
    if k == 0 || k > s.len() {
        i64::MIN
    } else {
        let m = max_prefix(s, (k - 1) as nat);
        if s[k - 1] > m { s[k - 1] } else { m }
    }
}

/// The largest value seen so far, after each value.
pub fn running_max(values: &[i64]) -> (r: Vec<i64>)
    ensures
        r@.len() == values@.len(),
        forall|i: int| 0 <= i < r@.len() ==> #[trigger] r@[i] == max_prefix(values@, (i + 1) as nat),
{
    let mut best = i64::MIN;
    let mut out: Vec<i64> = Vec::new();
    let mut i: usize = 0;
    while i < values.len()
        invariant
            i <= values@.len(),
            out@.len() == i,
            best == max_prefix(values@, i as nat),
            forall|j: int| 0 <= j < i ==> #[trigger] out@[j] == max_prefix(values@, (j + 1) as nat),
        decreases values@.len() - i,
    {
        if values[i] > best {
            best = values[i];
        }
        out.push(best);
        i = i + 1;
    }
    out
}

/// Groups runs of consecutive items with the same key.
pub struct GroupBy<T, F> {
    items: Vec<T>,
    pos: usize,
    keyfn: F,
}

impl<T: Copy, F: Fn(&T) -> u64> GroupBy<T, F> {
    pub closed spec fn input(&self) -> Seq<T> {
        self.items@
    }

    pub closed spec fn position(&self) -> nat {
        self.pos as nat
    }

    pub closed spec fn key_fn(&self) -> F {
        self.keyfn
    }

    pub closed spec fn wf(&self) -> bool {
        self.pos <= self.items@.len()
    }

    pub fn new(items: Vec<T>, keyfn: F) -> (r: Self)
        ensures
            r.wf(),
            r.input() == items@,
            r.position() == 0,
            r.key_fn() == keyfn,
    {
        GroupBy { items, pos: 0, keyfn }
    }

    /// The next run: its key and its items, each of which the key function gave that key,
    /// up to an item whose key differs or the end.
    pub fn next(&mut self) -> (r: Option<(u64, Vec<T>)>)
        requires
            old(self).wf(),
            forall|t: &T| #[trigger] old(self).key_fn().requires((t,)),
        ensures
            final(self).wf(),
            final(self).input() == old(self).input(),
            final(self).key_fn() == old(self).key_fn(),
            old(self).position() >= old(self).input().len() ==> r is None && final(self).position() == old(self).position(),
            old(self).position() < old(self).input().len() ==> (r matches Some((key, group)) && {
                let p = old(self).position();
                let e = final(self).position();
                &&& p < e <= old(self).input().len()
                &&& group@ == old(self).input().subrange(p as int, e as int)
                &&& forall|i: int| p <= i < e ==> old(self).key_fn().ensures((&old(self).input()[i],), key)
                &&& e < old(self).input().len() ==> exists|k2: u64| k2 != key && old(self).key_fn().ensures((&old(self).input()[e as int],), k2)
            }),
    {
        if self.pos >= self.items.len() {
            return None;
        }
        let first = self.items[self.pos];
        assert(old(self).key_fn().requires((&first,)));
        let key = (self.keyfn)(&first);
        let mut group: Vec<T> = Vec::new();
        group.push(first);
        let p = self.pos;
        self.pos = self.pos + 1;
        assert(group@ =~= self.items@.subrange(p as int, self.pos as int));
        assert forall|t: &T| #[trigger] self.keyfn.requires((t,)) by {
            assert(old(self).key_fn().requires((t,)));
        }
        while self.pos < self.items.len()
            invariant_except_break
                p < self.pos <= self.items@.len(),
                self.items@ == old(self).items@,
                self.keyfn == old(self).keyfn,
                p == old(self).pos,
                forall|t: &T| #[trigger] self.keyfn.requires((t,)),
                group@ == self.items@.subrange(p as int, self.pos as int),
                forall|i: int| p <= i < self.pos ==> self.keyfn.ensures((&self.items@[i],), key),
            ensures
                p < self.pos <= self.items@.len(),
                self.items@ == old(self).items@,
                self.keyfn == old(self).keyfn,
                group@ == self.items@.subrange(p as int, self.pos as int),
                forall|i: int| p <= i < self.pos ==> self.keyfn.ensures((&self.items@[i],), key),
                self.pos < self.items@.len() ==> exists|k2: u64| k2 != key && self.keyfn.ensures((&self.items@[self.pos as int],), k2),
            decreases self.items@.len() - self.pos,
        {
            let next_item = self.items[self.pos];
            let k2 = (self.keyfn)(&next_item);
            if k2 != key {
                break;
            }
            group.push(next_item);
            self.pos = self.pos + 1;
            assert(group@ =~= self.items@.subrange(p as int, self.pos as int));
        }
        Some((key, group))
    }
}

/// The values of sorted streams merged into one sorted stream; on a tie the stream
/// listed first goes first.
pub struct KMerge {
    streams: Vec<Vec<u64>>,
    heads: Vec<usize>,
}

/// The stream whose next value is smallest, the first of them on a tie, among streams
/// `0..k`; `None` when all are used up.
pub open spec fn min_stream(s: Seq<Seq<u64>>, h: Seq<usize>, k: nat) -> Option<nat>
    decreases k,
{
    if k == 0 {
        None
    } else {
        let prev = min_stream(s, h, (k - 1) as nat);
        let i = (k - 1) as nat;
        if h[i as int] < s[i as int].len() {
            match prev {
                Some(j) => if s[i as int][h[i as int] as int] < s[j as int][h[j as int] as int] { Some(i) } else { Some(j) },
                None => Some(i),
            }
        } else {
            prev
        }
    }
}

proof fn lemma_min_stream_valid(s: Seq<Seq<u64>>, h: Seq<usize>, k: nat)
    requires
        k <= s.len(),
        h.len() == s.len(),
    ensures
        min_stream(s, h, k) matches Some(j) ==> j < k && h[j as int] < s[j as int].len(),
    decreases k,
{
    if k > 0 {
        lemma_min_stream_valid(s, h, (k - 1) as nat);
    }
}

/// Each stream is sorted.
pub open spec fn streams_sorted(s: Seq<Seq<u64>>) -> bool {
    forall|i: int, a: int, b: int| 0 <= i < s.len() && 0 <= a <= b < s[i].len() ==> #[trigger] s[i][a] <= #[trigger] s[i][b]
}

/// The stream picked among `0..k` has the smallest next value of them, and none is
/// picked only when all of them are used up.
proof fn lemma_min_stream_is_min(s: Seq<Seq<u64>>, h: Seq<usize>, k: nat)
    requires
        k <= s.len(),
        h.len() == s.len(),
    ensures
        min_stream(s, h, k) is None ==> forall|i: int| 0 <= i < k ==> h[i] >= s[i].len(),
        min_stream(s, h, k) matches Some(j) ==> forall|i: int|
            0 <= i < k && h[i] < s[i].len() ==> s[j as int][h[j as int] as int] <= #[trigger] s[i][h[i] as int],
    decreases k,
{
    if k > 0 {
        lemma_min_stream_is_min(s, h, (k - 1) as nat);
        lemma_min_stream_valid(s, h, (k - 1) as nat);
    }
}

/// With every stream sorted, each value the merge yields is no smaller than the one
/// before it.
pub proof fn lemma_kmerge_sorted(s: Seq<Seq<u64>>, h: Seq<usize>)
    requires
        streams_sorted(s),
        h.len() == s.len(),
        forall|i: int| 0 <= i < h.len() ==> #[trigger] h[i] <= s[i].len() <= usize::MAX,
    ensures
        min_stream(s, h, s.len()) matches Some(j) ==> {
            let h2 = h.update(j as int, (h[j as int] + 1) as usize);
            min_stream(s, h2, s.len()) matches Some(k) ==> s[j as int][h[j as int] as int] <= s[k as int][h2[k as int] as int]
        },
{
    lemma_min_stream_valid(s, h, s.len());
    lemma_min_stream_is_min(s, h, s.len());
    if let Some(j) = min_stream(s, h, s.len()) {
        let h2 = h.update(j as int, (h[j as int] + 1) as usize);
        lemma_min_stream_valid(s, h2, s.len());
        if let Some(k) = min_stream(s, h2, s.len()) {
            if k == j {
                assert(h2[j as int] == h[j as int] + 1);
                let a = h[j as int] as int;
                let b = h2[j as int] as int;
                assert(0 <= a <= b < s[j as int].len());
                assert(s[j as int][a] <= s[j as int][b]);
            } else {
                assert(h2[k as int] == h[k as int]);
                assert(s[j as int][h[j as int] as int] <= s[k as int][h[k as int] as int]);
            }
        }
    }
}

impl KMerge {
    pub closed spec fn stream_views(&self) -> Seq<Seq<u64>> {
        self.streams@.map_values(|v: Vec<u64>| v@)
    }

    /// How far each stream has been read.
    pub closed spec fn read_positions(&self) -> Seq<usize> {
        self.heads@
    }

    pub closed spec fn wf(&self) -> bool {
        &&& self.heads@.len() == self.streams@.len()
        &&& forall|i: int| 0 <= i < self.heads@.len() ==> self.heads@[i] <= self.streams@[i]@.len()
    }

    pub fn new(streams: Vec<Vec<u64>>) -> (r: Self)
        ensures
            r.wf(),
            r.stream_views() == streams@.map_values(|v: Vec<u64>| v@),
            r.read_positions() == Seq::new(streams@.len(), |i: int| 0usize),
    {
        let mut heads: Vec<usize> = Vec::new();
        let mut i: usize = 0;
        while i < streams.len()
            invariant
                i <= streams@.len(),
                heads@ == Seq::new(i as nat, |j: int| 0usize),
            decreases streams@.len() - i,
        {
            heads.push(0);
            i = i + 1;
            assert(heads@ =~= Seq::new(i as nat, |j: int| 0usize));
        }
        KMerge { streams, heads }
    }

    /// The smallest next value of all streams, from the first such stream; `None` once
    /// every stream is used up.
    pub fn next(&mut self) -> (r: Option<u64>)
        requires
            old(self).wf(),
        ensures
            final(self).wf(),
            final(self).stream_views() == old(self).stream_views(),
            match min_stream(old(self).stream_views(), old(self).read_positions(), old(self).stream_views().len()) {
                None => r is None && final(self).read_positions() == old(self).read_positions(),
                Some(j) => r == Some(old(self).stream_views()[j as int][old(self).read_positions()[j as int] as int])
                    && final(self).read_positions() == old(self).read_positions().update(j as int, (old(self).read_positions()[j as int] + 1) as usize),
            },
    {
        let ghost sv = self.stream_views();
        let mut best: Option<usize> = None;
        let mut i: usize = 0;
        while i < self.streams.len()
            invariant
                i <= self.streams@.len(),
                self.wf(),
                sv == self.stream_views(),
                sv.len() == self.streams@.len(),
                match min_stream(sv, self.heads@, i as nat) {
                    Some(j) => best == Some(j as usize),
                    None => best is None,
                },
            decreases self.streams@.len() - i,
        {
            proof {
                lemma_min_stream_valid(sv, self.heads@, i as nat);
            }
            let h = self.heads[i];
            if h < self.streams[i].len() {
                match best {
                    Some(j) => {
                        if self.streams[i][h] < self.streams[j][self.heads[j]] {
                            best = Some(i);
                        }
                    },
                    None => {
                        best = Some(i);
                    },
                }
            }
            i = i + 1;
        }
        proof {
            lemma_min_stream_valid(sv, self.heads@, sv.len());
        }
        match best {
            Some(j) => {
                proof {
                    let jj = min_stream(sv, self.heads@, sv.len())->0;
                    assert(jj < sv.len());
                    assert(j as nat == jj);
                    assert(self.heads@[j as int] < sv[j as int].len());
                }
                assert(sv[j as int].len() == self.streams@[j as int]@.len());
                let v = self.streams[j][self.heads[j]];
                let h = self.heads[j];
                let lenj = self.streams[j].len();
                assert(h < lenj);
                self.heads.set(j, h + 1);
                Some(v)
            },
            None => None,
        }
    }
}

/// The sum of the values up to the first error, or that error.
pub open spec fn checked_sum_spec(items: Seq<Result<u64, &'static str>>, k: nat) -> Result<int, &'static str>
    decreases k,
{
    if k == 0 || k > items.len() {
        Ok(0)
    } else {
        match checked_sum_spec(items, (k - 1) as nat) {
            Err(e) => Err(e),
            Ok(s) => match items[k - 1] {
                Err(e) => Err(e),
                Ok(x) => Ok(s + x),
            },
        }
    }
}

/// Adds the values until the first error, which is returned instead.
pub fn checked_sum(items: &[Result<u64, &'static str>]) -> (r: Result<u64, &'static str>)
    requires
        forall|k: nat| k <= items@.len() ==> (#[trigger] checked_sum_spec(items@, k) matches Ok(s) ==> s <= u64::MAX),
    ensures
        match checked_sum_spec(items@, items@.len()) {
            Ok(s) => r == Ok::<u64, &'static str>(s as u64),
            Err(e) => r == Err::<u64, &'static str>(e),
        },
{
    let mut acc: u64 = 0;
    let mut i: usize = 0;
    while i < items.len()
        invariant
            i <= items@.len(),
            forall|k: nat| k <= items@.len() ==> (#[trigger] checked_sum_spec(items@, k) matches Ok(s) ==> s <= u64::MAX),
            checked_sum_spec(items@, i as nat) == Ok::<int, &'static str>(acc as int),
        decreases items@.len() - i,
    {
        match items[i] {
            Err(e) => {
                proof {
                    lemma_checked_sum_err(items@, (i + 1) as nat, items@.len());
                }
                return Err(e);
            },
            Ok(x) => {
                assert(checked_sum_spec(items@, (i + 1) as nat) == Ok::<int, &'static str>(acc + x));
                acc = acc + x;
            },
        }
        i = i + 1;
    }
    Ok(acc)
}

proof fn lemma_checked_sum_err(items: Seq<Result<u64, &'static str>>, k: nat, n: nat)
    requires
        k <= n <= items.len(),
        checked_sum_spec(items, k) is Err,
    ensures
        checked_sum_spec(items, n) == checked_sum_spec(items, k),
    decreases n - k,
{
    if k < n {
        lemma_checked_sum_err(items, k + 1, n);
    }
}

/// Keeps items while their costs, as `cost` gives them, stay within `budget`; stops at
/// the first that would pass it.
pub fn take_within_budget<T, F: Fn(&T) -> u64>(items: Vec<T>, budget: u64, cost: F) -> (r: Vec<T>)
    requires
        forall|t: &T| #[trigger] cost.requires((t,)),
        forall|t: &T, c: u64| #[trigger] cost.ensures((t,), c) ==> c <= u64::MAX - budget,
    ensures
        r@.len() <= items@.len(),
        r@ == items@.subrange(0, r@.len() as int),
        exists|costs: Seq<u64>| #![trigger sum_u64(costs)] {
            &&& costs.len() == r@.len() + (if r@.len() < items@.len() { 1int } else { 0int })
            &&& forall|i: int| 0 <= i < costs.len() ==> cost.ensures((&items@[i],), #[trigger] costs[i])
            &&& sum_u64(costs.subrange(0, r@.len() as int)) <= budget
            &&& r@.len() < items@.len() ==> sum_u64(costs) > budget
        },
{
    let mut used: u64 = 0;
    let mut out: Vec<T> = Vec::new();
    let ghost mut costs: Seq<u64> = Seq::empty();
    let mut items = items;
    let ghost all = items@;
    let mut taken: usize = 0;
    assert(all.subrange(0, all.len() as int) =~= all);
    assert(all.len() == items.len());
    while items.len() > 0
        invariant_except_break
            taken == out@.len(),
            out@ == all.subrange(0, taken as int),
            items@ == all.subrange(taken as int, all.len() as int),
            taken <= all.len(),
            costs.len() == taken,
            forall|i: int| 0 <= i < costs.len() ==> cost.ensures((&all[i],), #[trigger] costs[i]),
            used == sum_u64(costs),
            used <= budget,
            costs.subrange(0, taken as int) == costs,
            all.len() <= usize::MAX,
            forall|t: &T| #[trigger] cost.requires((t,)),
            forall|t: &T, c: u64| #[trigger] cost.ensures((t,), c) ==> c <= u64::MAX - budget,
        ensures
            out@ == all.subrange(0, out@.len() as int),
            out@.len() <= all.len(),
            costs.len() == out@.len() + (if out@.len() < all.len() { 1int } else { 0int }),
            forall|i: int| 0 <= i < costs.len() ==> cost.ensures((&all[i],), #[trigger] costs[i]),
            sum_u64(costs.subrange(0, out@.len() as int)) <= budget,
            out@.len() < all.len() ==> sum_u64(costs) > budget,
        decreases items@.len(),
    {
        let x = items.remove(0);
        assert(x == all[taken as int]);
        let c = cost(&x);
        let ghost prev_costs = costs;
        proof {
            costs = costs.push(c);
            assert(costs.subrange(0, taken as int) =~= prev_costs);
            assert(costs.drop_last() =~= costs.subrange(0, taken as int));
        }
        if used + c > budget {
            break;
        }
        used = used + c;
        out.push(x);
        taken = taken + 1;
        proof {
            assert(costs.subrange(0, taken as int) =~= costs);
            assert(out@ =~= all.subrange(0, taken as int));
            assert(items@ =~= all.subrange(taken as int, all.len() as int));
        }
    }
    proof {
        if out@.len() == all.len() {
            assert(costs.subrange(0, out@.len() as int) =~= costs);
        }
    }
    out
}

/// The sum of some costs.
pub open spec fn sum_u64(s: Seq<u64>) -> int
    decreases s.len(),
{
    if s.len() == 0 { 0 } else { sum_u64(s.drop_last()) + s.last() }
}

/// The first occurrence of each value, in order.
pub open spec fn dedup_spec<T>(s: Seq<T>) -> Seq<T>
    decreases s.len(),
{
    if s.len() == 0 {
        Seq::empty()
    } else {
        let prev = dedup_spec(s.drop_last());
        if s.drop_last().contains(s.last()) { prev } else { prev.push(s.last()) }
    }
}

/// Keeps the first occurrence of each value, in order.
pub fn dedup_in_order<T: PartialEq + Copy>(items: &[T]) -> (r: Vec<T>)
    requires
        obeys_concrete_eq::<T>(),
    ensures
        r@ == dedup_spec(items@),
{
    proof {
        reveal(obeys_concrete_eq);
    }
    let mut out: Vec<T> = Vec::new();
    let mut i: usize = 0;
    while i < items.len()
        invariant
            i <= items@.len(),
            obeys_concrete_eq::<T>(),
            out@ == dedup_spec(items@.subrange(0, i as int)),
            forall|x: T| out@.contains(x) <==> items@.subrange(0, i as int).contains(x),
        decreases items@.len() - i,
    {
        proof {
            reveal(obeys_concrete_eq);
        }
        let x = items[i];
        let ghost pre = items@.subrange(0, i + 1);
        assert(pre.drop_last() =~= items@.subrange(0, i as int));
        assert(pre.last() == x);
        let mut seen = false;
        let mut k: usize = 0;
        while k < out.len()
            invariant
                k <= out@.len(),
                obeys_concrete_eq::<T>(),
                seen == exists|j: int| 0 <= j < k && out@[j] == x,
            decreases out@.len() - k,
        {
            proof {
                reveal(obeys_concrete_eq);
            }
            if out[k] == x {
                seen = true;
            }
            k = k + 1;
        }
        assert(seen == out@.contains(x));
        let ghost before = out@;
        if !seen {
            out.push(x);
        }
        proof {
            assert forall|y: T| out@.contains(y) <==> pre.contains(y) by {
                if out@.contains(y) && !before.contains(y) {
                    assert(y == x);
                    assert(pre[i as int] == x);
                }
                if pre.contains(y) {
                    let j = choose|j: int| 0 <= j < pre.len() && pre[j] == y;
                    if j < i {
                        assert(items@.subrange(0, i as int)[j] == y);
                        assert(before.contains(y));
                        let m = choose|m: int| 0 <= m < before.len() && before[m] == y;
                        assert(out@[m] == y);
                    } else {
                        if seen {
                            assert(before.contains(y));
                            let m = choose|m: int| 0 <= m < before.len() && before[m] == y;
                            assert(out@[m] == y);
                        } else {
                            assert(out@[before.len() as int] == y);
                        }
                    }
                }
                if before.contains(y) {
                    let m = choose|m: int| 0 <= m < before.len() && before[m] == y;
                    assert(out@[m] == y);
                }
            }
        }
        i = i + 1;
    }
    assert(items@.subrange(0, items@.len() as int) =~= items@);
    out
}

} // verus!
