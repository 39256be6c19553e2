//! Reusable caching strategies: last-key caches, small MRU tables with eviction, a
//! front that falls back to a hash map, generation guards and locality probes.
use std::collections::HashMap;
use vstd::prelude::*;
use vstd::laws_eq::obeys_concrete_eq;

verus! {

broadcast use vstd::std_specs::hash::group_hash_axioms;

/// A cache of the last key and its value.
#[derive(Clone, Copy)]
pub struct MonoCache<K, V> {
    slot: Option<(K, V)>,
    pub hits: u64,
    pub misses: u64,
}

impl<K: PartialEq + Copy, V: Copy> MonoCache<K, V> {
    pub closed spec fn slot(&self) -> Option<(K, V)> {
        self.slot
    }

    pub closed spec fn hits_count(&self) -> u64 {
        self.hits
    }

    pub closed spec fn misses_count(&self) -> u64 {
        self.misses
    }

    pub fn new() -> (r: Self)
        ensures
            r.slot() is None,
            r.hits_count() == 0 && r.misses_count() == 0,
    {
        MonoCache { slot: None, hits: 0, misses: 0 }
    }

    /// The cached value when `key` is the remembered key; otherwise `resolve` supplies the
    /// value, which is remembered with `key`.
    pub fn get_or_insert<F: FnOnce() -> V>(&mut self, key: K, resolve: F) -> (r: V)
        requires
            obeys_concrete_eq::<K>(),
            old(self).hits_count() < u64::MAX,
            old(self).misses_count() < u64::MAX,
            !(old(self).slot() matches Some(e) && e.0 == key) ==> resolve.requires(()),
        ensures
            (old(self).slot() matches Some(e) && e.0 == key) ==> r == old(self).slot()->Some_0.1
                && final(self).slot() == old(self).slot() && final(self).hits_count() == old(self).hits_count() + 1
                && final(self).misses_count() == old(self).misses_count(),
            !(old(self).slot() matches Some(e) && e.0 == key) ==> resolve.ensures((), r)
                && final(self).slot() == Some((key, r)) && final(self).hits_count() == old(self).hits_count()
                && final(self).misses_count() == old(self).misses_count() + 1,
    {
        proof {
            reveal(obeys_concrete_eq);
        }
        if let Some((k, v)) = self.slot {
            if k == key {
                self.hits = self.hits + 1;
                return v;
            }
        }
        self.misses = self.misses + 1;
        let v = resolve();
        self.slot = Some((key, v));
        v
    }

    pub fn invalidate(&mut self)
        ensures
            final(self).slot() is None,
            final(self).hits_count() == old(self).hits_count(),
            final(self).misses_count() == old(self).misses_count(),
    {
        self.slot = None;
    }
}

/// Index of the first entry whose key is `key`, if any.
pub open spec fn first_key_index<K, V>(e: Seq<(K, V)>, key: K) -> Option<int> {
    if exists|i: int| 0 <= i < e.len() && (#[trigger] e[i]).0 == key {
        Some(choose|i: int| 0 <= i < e.len() && (#[trigger] e[i]).0 == key && forall|j: int| 0 <= j < i ==> (#[trigger] e[j]).0 != key)
    } else {
        None
    }
}

pub(crate) proof fn lemma_first_key_index<K, V>(e: Seq<(K, V)>, key: K, i: int)
    requires
        0 <= i < e.len(),
        e[i].0 == key,
        forall|j: int| 0 <= j < i ==> (#[trigger] e[j]).0 != key,
    ensures
        first_key_index(e, key) == Some(i),
{
    let w = choose|w: int| 0 <= w < e.len() && (#[trigger] e[w]).0 == key && forall|j: int| 0 <= j < w ==> (#[trigger] e[j]).0 != key;
    assert(first_key_index(e, key) == Some(w));
    if w < i {
        assert(e[w].0 != key);
    } else if w > i {
        assert(e[i].0 != key);
    }
}

/// The table after a lookup of `key` answered `r`: a hit moves the matching entry to
/// the front; a miss appends while there is room and otherwise overwrites the last entry.
pub open spec fn poly_entries_after<K, V>(e: Seq<(K, V)>, key: K, r: V, n: nat) -> Seq<(K, V)> {
    match first_key_index(e, key) {
        Some(i) => e.update(0, e[i]).update(i, e[0]),
        None => if e.len() < n {
            e.push((key, r))
        } else {
            e.update(n - 1, (key, r))
        },
    }
}

/// A small most-recently-used table of `N` entries that evicts its last entry when full.
pub struct PolyCache<K, V, const N: usize> {
    slots: [Option<(K, V)>; N],
    len: usize,
    pub hits: u64,
    pub misses: u64,
}

impl<K: PartialEq + Copy, V: Copy, const N: usize> PolyCache<K, V, N> {
    /// Entries front first.
    pub closed spec fn entries(&self) -> Seq<(K, V)> {
        Seq::new(self.len as nat, |i: int| self.slots@[i]->Some_0)
    }

    pub closed spec fn hits_count(&self) -> u64 {
        self.hits
    }

    pub closed spec fn misses_count(&self) -> u64 {
        self.misses
    }

    pub closed spec fn wf(&self) -> bool {
        &&& self.len <= N
        &&& forall|i: int| 0 <= i < self.len ==> (#[trigger] self.slots@[i]) is Some
    }

    pub fn new() -> (r: Self)
        ensures
            r.wf(),
            r.entries() == Seq::<(K, V)>::empty(),
            r.hits_count() == 0 && r.misses_count() == 0,
    {
        let r = PolyCache { slots: [None; N], len: 0, hits: 0, misses: 0 };
        assert(r.entries() =~= Seq::<(K, V)>::empty());
        r
    }

    /// On a hit the first matching entry answers and moves to the front; on a miss
    /// `resolve` supplies the value, appended while there is room and otherwise
    /// overwriting the last entry.
    pub fn get_or_insert<F: FnOnce() -> V>(&mut self, key: K, resolve: F) -> (r: V)
        requires
            N > 0,
            obeys_concrete_eq::<K>(),
            old(self).wf(),
            old(self).hits_count() < u64::MAX,
            old(self).misses_count() < u64::MAX,
            first_key_index(old(self).entries(), key) is None ==> resolve.requires(()),
        ensures
            final(self).wf(),
            final(self).entries() == poly_entries_after(old(self).entries(), key, r, N as nat),
            first_key_index(old(self).entries(), key) matches Some(i) ==> {
                &&& r == old(self).entries()[i].1
                &&& final(self).entries() == old(self).entries().update(0, old(self).entries()[i]).update(i, old(self).entries()[0])
                &&& final(self).hits_count() == old(self).hits_count() + 1
                &&& final(self).misses_count() == old(self).misses_count()
            },
            first_key_index(old(self).entries(), key) is None ==> {
                &&& resolve.ensures((), r)
                &&& final(self).entries() == (if old(self).entries().len() < N {
                    old(self).entries().push((key, r))
                } else {
                    old(self).entries().update(N - 1, (key, r))
                })
                &&& final(self).hits_count() == old(self).hits_count()
                &&& final(self).misses_count() == old(self).misses_count() + 1
            },
    {
        proof {
            reveal(obeys_concrete_eq);
        }
        let ghost e0 = self.entries();
        let mut i: usize = 0;
        while i < self.len
            invariant
                obeys_concrete_eq::<K>(),
                self.len <= N,
                e0 == self.entries(),
                e0 == old(self).entries(),
                forall|j: int| 0 <= j < self.len ==> (#[trigger] self.slots@[j]) is Some,
                self.hits == old(self).hits,
                self.misses == old(self).misses,
                self.hits < u64::MAX,
                i <= self.len,
                forall|j: int| 0 <= j < i ==> (#[trigger] e0[j]).0 != key,
            decreases self.len - i,
        {
            proof {
                reveal(obeys_concrete_eq);
            }
            if let Some((k, v)) = self.slots[i] {
                if k == key {
                    self.hits = self.hits + 1;
                    proof {
                        assert(e0[i as int] == (k, v));
                        lemma_first_key_index(e0, key, i as int);
                    }
                    if i > 0 {
                        let first = self.slots[0];
                        self.slots[0] = self.slots[i];
                        self.slots[i] = first;
                    }
                    assert(self.entries() =~= e0.update(0, e0[i as int]).update(i as int, e0[0]));
                    return v;
                }
            }
            i = i + 1;
        }
        assert(first_key_index(e0, key) is None);
        self.misses = self.misses + 1;
        let v = resolve();
        if self.len < N {
            self.slots[self.len] = Some((key, v));
            self.len = self.len + 1;
            assert(self.entries() =~= e0.push((key, v)));
        } else {
            self.slots[N - 1] = Some((key, v));
            assert(self.entries() =~= e0.update(N - 1, (key, v)));
        }
        v
    }
}

/// The map built by inserting `entries` in order.
pub open spec fn map_of_pairs<K, V>(entries: Seq<(K, V)>) -> Map<K, V>
    decreases entries.len(),
{
    if entries.len() == 0 {
        Map::empty()
    } else {
        map_of_pairs(entries.drop_last()).insert(entries.last().0, entries.last().1)
    }
}

/// A polymorphic front that becomes a hash map after more than eight misses on a full table.
pub enum CacheFront<K, V, const N: usize> {
    Poly(PolyCache<K, V, N>),
    Dict(HashMap<K, V>),
}

impl<K: PartialEq + Eq + Copy + std::hash::Hash, V: Copy, const N: usize> CacheFront<K, V, N> {
    pub closed spec fn wf(&self) -> bool {
        match self {
            CacheFront::Poly(p) => p.wf(),
            CacheFront::Dict(_) => true,
        }
    }

    pub fn new() -> (r: Self)
        ensures
            r.wf(),
            (r matches CacheFront::Poly(p) && p.entries() == Seq::<(K, V)>::empty() && p.misses_count() == 0),
    {
        CacheFront::Poly(PolyCache::new())
    }

    /// A dictionary answers from the map or resolves and inserts; a table answers as a
    /// `PolyCache`, and once it has missed more than eight times while full it turns into
    /// a dictionary holding its entries.
    pub fn get_or_insert<F: FnOnce() -> V>(&mut self, key: K, resolve: F) -> (r: V)
        requires
            N > 0,
            obeys_concrete_eq::<K>(),
            vstd::std_specs::hash::obeys_key_model::<K>(),
            old(self).wf(),
            *old(self) matches CacheFront::Poly(p) ==> p.hits_count() < u64::MAX && p.misses_count() < u64::MAX
                && (first_key_index(p.entries(), key) is None ==> resolve.requires(())),
            *old(self) matches CacheFront::Dict(m) ==> (!m@.dom().contains(key) ==> resolve.requires(())),
        ensures
            final(self).wf(),
            *old(self) matches CacheFront::Dict(m) ==> {
                &&& m@.dom().contains(key) ==> r == m@[key] && *final(self) == *old(self)
                &&& !m@.dom().contains(key) ==> resolve.ensures((), r)
                    && (*final(self) matches CacheFront::Dict(m2) && m2@ == m@.insert(key, r))
            },
            *old(self) matches CacheFront::Poly(p) ==> {
                &&& first_key_index(p.entries(), key) matches Some(i) ==> r == p.entries()[i].1
                &&& first_key_index(p.entries(), key) is None ==> resolve.ensures((), r)
                &&& {
                    let e2 = poly_entries_after(p.entries(), key, r, N as nat);
                    let m2 = p.misses_count() + (if first_key_index(p.entries(), key) is None { 1int } else { 0 });
                    if m2 > 8 && e2.len() == N {
                        *final(self) matches CacheFront::Dict(d) && d@ == map_of_pairs(e2).insert(key, r)
                    } else {
                        *final(self) matches CacheFront::Poly(p2) && p2.entries() == e2 && p2.misses_count() == m2
                    }
                }
            },
    {
        match self {
            CacheFront::Poly(p) => {
                let v = p.get_or_insert(key, resolve);
                if p.misses > 8 && p.len == N {
                    let ghost e = p.entries();
                    let mut map: HashMap<K, V> = HashMap::new();
                    let mut i: usize = 0;
                    while i < p.len
                        invariant
                            p.wf(),
                            e == p.entries(),
                            i <= p.len,
                            map@ == map_of_pairs(e.subrange(0, i as int)),
                            vstd::std_specs::hash::obeys_key_model::<K>(),
                        decreases p.len - i,
                    {
                        if let Some((k, val)) = p.slots[i] {
                            map.insert(k, val);
                        }
                        proof {
                            assert(e.subrange(0, i + 1).drop_last() == e.subrange(0, i as int));
                        }
                        i = i + 1;
                    }
                    assert(e.subrange(0, e.len() as int) == e);
                    map.insert(key, v);
                    *self = CacheFront::Dict(map);
                }
                v
            },
            CacheFront::Dict(map) => {
                match map.get(&key) {
                    Some(v) => *v,
                    None => {
                        let v = resolve();
                        map.insert(key, v);
                        v
                    },
                }
            },
        }
    }
}

/// A cache guard: the key and the generation it was resolved under.
#[derive(Clone, Copy, PartialEq, Eq)]
pub struct Guard<K> {
    pub key: K,
    pub gen: u64,
}

/// Remembers one value per guard; a new generation invalidates it.
pub struct Generational<K, V> {
    slot: Option<(Guard<K>, V)>,
}

impl<K: PartialEq + Copy, V: Copy> Generational<K, V> {
    pub closed spec fn slot(&self) -> Option<(Guard<K>, V)> {
        self.slot
    }

    pub fn new() -> (r: Self)
        ensures
            r.slot() is None,
    {
        Generational { slot: None }
    }

    /// The remembered value when both key and generation match; otherwise `resolve`
    /// supplies the value, remembered under `g`.
    pub fn get<F: FnOnce() -> V>(&mut self, g: Guard<K>, resolve: F) -> (r: V)
        requires
            obeys_concrete_eq::<K>(),
            !(old(self).slot() matches Some(e) && e.0 == g) ==> resolve.requires(()),
        ensures
            (old(self).slot() matches Some(e) && e.0 == g) ==> r == old(self).slot()->Some_0.1
                && final(self).slot() == old(self).slot(),
            !(old(self).slot() matches Some(e) && e.0 == g) ==> resolve.ensures((), r)
                && final(self).slot() == Some((g, r)),
    {
        proof {
            reveal(obeys_concrete_eq);
        }
        if let Some((og, v)) = self.slot {
            if og.key == g.key && og.gen == g.gen {
                return v;
            }
        }
        let v = resolve();
        self.slot = Some((g, v));
        v
    }
}

/// A statically dispatched venue handler.
pub trait Handler {
    fn name() -> &'static str;
}

pub struct VenueA;

pub struct VenueB;

impl Handler for VenueA {
    fn name() -> &'static str {
        "A"
    }
}

impl Handler for VenueB {
    fn name() -> &'static str {
        "B"
    }
}

/// Resolves the handler's name through static dispatch.
pub fn run<H: Handler>() {
    let _ = H::name();
}

/// Counts how often a key repeats the previous one.
pub struct LocalityProbe<K> {
    last: Option<K>,
    same: u64,
    total: u64,
}

impl<K: PartialEq + Copy> LocalityProbe<K> {
    pub closed spec fn last(&self) -> Option<K> {
        self.last
    }

    pub closed spec fn same_count(&self) -> u64 {
        self.same
    }

    pub closed spec fn total_count(&self) -> u64 {
        self.total
    }

    pub fn new() -> (r: Self)
        ensures
            r.last() is None,
            r.same_count() == 0 && r.total_count() == 0,
    {
        LocalityProbe { last: None, same: 0, total: 0 }
    }

    pub fn observe(&mut self, key: K)
        requires
            obeys_concrete_eq::<K>(),
            old(self).total_count() < u64::MAX,
            old(self).same_count() <= old(self).total_count(),
        ensures
            final(self).last() == Some(key),
            final(self).total_count() == old(self).total_count() + 1,
            final(self).same_count() == old(self).same_count() + (if old(self).last() == Some(key) { 1int } else { 0 }),
            final(self).same_count() <= final(self).total_count(),
    {
        proof {
            reveal(obeys_concrete_eq);
        }
        self.total = self.total + 1;
        let repeat = match self.last {
            Some(k) => k == key,
            None => false,
        };
        if repeat {
            self.same = self.same + 1;
        }
        self.last = Some(key);
    }

    /// Observations that repeated the previous key.
    pub fn same(&self) -> (r: u64)
        ensures
            r == self.same_count(),
    {
        self.same
    }

    /// All observations.
    pub fn total(&self) -> (r: u64)
        ensures
            r == self.total_count(),
    {
        self.total
    }
}

} // verus!
