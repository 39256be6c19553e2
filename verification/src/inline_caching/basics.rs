//! Inline caches: a monomorphic cache remembering one shape, and a polymorphic cache
//! holding up to `N` shapes in a small table before it falls back to a dictionary.
use vstd::prelude::*;

verus! {

/// The guard key of a cache entry.
#[derive(Debug, Clone, Copy, PartialEq, Eq, Hash, Structural)]
pub struct ShapeId(pub u32);

/// One cached resolution.
#[derive(Debug, Clone, Copy)]
pub struct IcSlot {
    pub shape: ShapeId,
    pub cached: u32,
}

#[derive(Debug, Clone, Copy, PartialEq, Eq, Structural)]
pub enum IcState {
    Uninit,
    Mono,
    Poly,
    Mega,
}

/// A cache that remembers the last shape it resolved.
pub struct MonoIc {
    slot: Option<IcSlot>,
    pub hits: u64,
    pub misses: u64,
}

impl MonoIc {
    pub closed spec fn hits_count(&self) -> u64 {
        self.hits
    }

    pub closed spec fn misses_count(&self) -> u64 {
        self.misses
    }
    /// The remembered resolution, if any.
    pub closed spec fn slot(&self) -> Option<IcSlot> {
        self.slot
    }

    pub fn new() -> (r: Self)
        ensures
            r.slot() is None,
            r.hits_count() == 0,
            r.misses_count() == 0,
    {
        MonoIc { slot: None, hits: 0, misses: 0 }
    }

    pub fn state(&self) -> (r: IcState)
        ensures
            r == (if self.slot() is Some { IcState::Mono } else { IcState::Uninit }),
    {
        if self.slot.is_some() {
            IcState::Mono
        } else {
            IcState::Uninit
        }
    }

    /// On a shape match the cached value comes back and `resolve` is not called;
    /// otherwise `resolve` computes the value, which then replaces the slot.
    pub fn lookup<F: FnOnce() -> u32>(&mut self, shape: ShapeId, resolve: F) -> (r: u32)
        requires
            old(self).hits_count() < u64::MAX,
            old(self).misses_count() < u64::MAX,
            !(old(self).slot() matches Some(s) && s.shape == shape) ==> resolve.requires(()),
        ensures
            old(self).slot() matches Some(s) && s.shape == shape ==> {
                &&& r == old(self).slot()->Some_0.cached
                &&& final(self).slot() == old(self).slot()
                &&& final(self).hits_count() == old(self).hits_count() + 1
                &&& final(self).misses_count() == old(self).misses_count()
            },
            !(old(self).slot() matches Some(s) && s.shape == shape) ==> {
                &&& resolve.ensures((), r)
                &&& final(self).slot() == Some(IcSlot { shape, cached: r })
                &&& final(self).hits_count() == old(self).hits_count()
                &&& final(self).misses_count() == old(self).misses_count() + 1
            },
    {
        if let Some(slot) = self.slot {
            if slot.shape == shape {
                self.hits = self.hits + 1;
                return slot.cached;
            }
        }
        self.misses = self.misses + 1;
        let cached = resolve();
        self.slot = Some(IcSlot { shape, cached });
        cached
    }
}

/// Whether some entry carries `s`.
pub open spec fn has_shape(e: Seq<(ShapeId, u32)>, s: ShapeId) -> bool {
    exists|i: int| 0 <= i < e.len() && (#[trigger] e[i]).0 == s
}

/// The value stored with `s`.
pub open spec fn value_of(e: Seq<(ShapeId, u32)>, s: ShapeId) -> u32 {
    e[choose|i: int| 0 <= i < e.len() && (#[trigger] e[i]).0 == s].1
}

/// No shape occurs twice.
pub open spec fn unique_shapes(e: Seq<(ShapeId, u32)>) -> bool {
    forall|i: int, j: int| 0 <= i < e.len() && 0 <= j < e.len() && (#[trigger] e[i]).0 == (#[trigger] e[j]).0 ==> i == j
}

/// The entries as a map from shape to cached value.
pub open spec fn entry_map(e: Seq<(ShapeId, u32)>) -> Map<ShapeId, u32> {
    Map::new(|s: ShapeId| has_shape(e, s), |s: ShapeId| value_of(e, s))
}

/// The value of an entry found at index `i` is what the map holds for its shape.
proof fn lemma_value_at(e: Seq<(ShapeId, u32)>, i: int)
    requires
        unique_shapes(e),
        0 <= i < e.len(),
    ensures
        has_shape(e, e[i].0),
        value_of(e, e[i].0) == e[i].1,
{
    let s = e[i].0;
    assert(has_shape(e, s));
    let k = choose|k: int| 0 <= k < e.len() && (#[trigger] e[k]).0 == s;
    assert(e[k].0 == e[i].0);
}

/// Appending an entry for a new shape inserts it into the map.
proof fn lemma_push_new(e: Seq<(ShapeId, u32)>, s: ShapeId, v: u32)
    requires
        unique_shapes(e),
        !has_shape(e, s),
    ensures
        unique_shapes(e.push((s, v))),
        entry_map(e.push((s, v))) == entry_map(e).insert(s, v),
{
    let f = e.push((s, v));
    assert forall|i: int, j: int| 0 <= i < f.len() && 0 <= j < f.len() && (#[trigger] f[i]).0 == (#[trigger] f[j]).0 implies i == j by {
        if i < e.len() && j < e.len() {
            assert(e[i].0 == e[j].0);
        } else if i < e.len() {
            assert(e[i].0 == s);
        } else if j < e.len() {
            assert(e[j].0 == s);
        }
    }
    assert forall|t: ShapeId| #[trigger] has_shape(f, t) == (has_shape(e, t) || t == s) by {
        if has_shape(e, t) {
            let k = choose|k: int| 0 <= k < e.len() && (#[trigger] e[k]).0 == t;
            assert(f[k].0 == t);
        }
        if t == s {
            assert(f[e.len() as int].0 == t);
        }
        if has_shape(f, t) && t != s {
            let k = choose|k: int| 0 <= k < f.len() && (#[trigger] f[k]).0 == t;
            assert(e[k].0 == t);
        }
    }
    assert forall|t: ShapeId| has_shape(f, t) implies #[trigger] value_of(f, t) == entry_map(e).insert(s, v)[t] by {
        let k = choose|k: int| 0 <= k < f.len() && (#[trigger] f[k]).0 == t;
        lemma_value_at(f, k);
        if t != s {
            assert(k < e.len());
            lemma_value_at(e, k);
        } else {
            assert(f[e.len() as int].0 == t);
        }
    }
    assert(entry_map(f) =~= entry_map(e).insert(s, v));
}

/// Two sequences with the same entries up to a swap have the same map.
proof fn lemma_swap_same_map(e: Seq<(ShapeId, u32)>, i: int, j: int)
    requires
        unique_shapes(e),
        0 <= i < e.len(),
        0 <= j < e.len(),
    ensures
        unique_shapes(e.update(i, e[j]).update(j, e[i])),
        entry_map(e.update(i, e[j]).update(j, e[i])) == entry_map(e),
{
    let f = e.update(i, e[j]).update(j, e[i]);
    let p = |k: int| if k == i { j } else if k == j { i } else { k };
    assert forall|k: int| 0 <= k < f.len() implies #[trigger] f[k] == e[p(k)] by {}
    assert forall|a: int, b: int| 0 <= a < f.len() && 0 <= b < f.len() && (#[trigger] f[a]).0 == (#[trigger] f[b]).0 implies a == b by {
        assert(f[a] == e[p(a)]);
        assert(f[b] == e[p(b)]);
        assert(e[p(a)].0 == e[p(b)].0);
    }
    assert forall|t: ShapeId| #[trigger] has_shape(f, t) == has_shape(e, t) by {
        if has_shape(e, t) {
            let k = choose|k: int| 0 <= k < e.len() && (#[trigger] e[k]).0 == t;
            assert(f[p(k)] == e[p(p(k))]);
            assert(f[p(k)].0 == t);
        }
        if has_shape(f, t) {
            let k = choose|k: int| 0 <= k < f.len() && (#[trigger] f[k]).0 == t;
            assert(f[k] == e[p(k)]);
            assert(e[p(k)].0 == t);
        }
    }
    assert forall|t: ShapeId| has_shape(f, t) implies #[trigger] value_of(f, t) == value_of(e, t) by {
        let k = choose|k: int| 0 <= k < f.len() && (#[trigger] f[k]).0 == t;
        lemma_value_at(f, k);
        assert(f[k] == e[p(k)]);
        lemma_value_at(e, p(k));
    }
    assert(entry_map(f) =~= entry_map(e));
}

/// A polymorphic inline cache: up to `N` slots, then a megamorphic dictionary.
pub struct PolyIc<const N: usize> {
    slots: [Option<IcSlot>; N],
    len: usize,
    mega: bool,
    dict: Vec<(ShapeId, u32)>,
    pub hits: u64,
    pub misses: u64,
    pub mega_lookups: u64,
}

impl<const N: usize> PolyIc<N> {
    pub closed spec fn hits_count(&self) -> u64 {
        self.hits
    }

    pub closed spec fn misses_count(&self) -> u64 {
        self.misses
    }

    pub closed spec fn mega_lookups_count(&self) -> u64 {
        self.mega_lookups
    }
    /// The occupied slots, front first.
    pub closed spec fn slot_entries(&self) -> Seq<(ShapeId, u32)> {
        Seq::new(self.len as nat, |i: int| (self.slots@[i]->Some_0.shape, self.slots@[i]->Some_0.cached))
    }

    /// The entries in lookup order: the dictionary once megamorphic, else the slots.
    pub closed spec fn entries(&self) -> Seq<(ShapeId, u32)> {
        if self.mega {
            self.dict@
        } else {
            self.slot_entries()
        }
    }

    pub closed spec fn is_mega(&self) -> bool {
        self.mega
    }

    pub closed spec fn slot_count(&self) -> nat {
        self.len as nat
    }

    /// Every cached shape with its value.
    pub open spec fn cache(&self) -> Map<ShapeId, u32> {
        entry_map(self.entries())
    }

    pub closed spec fn wf(&self) -> bool {
        &&& self.len <= N
        &&& forall|i: int| 0 <= i < self.len ==> (#[trigger] self.slots@[i]) is Some
        &&& !self.mega ==> self.dict@.len() == 0
        &&& self.mega ==> self.len == N
        &&& unique_shapes(self.entries())
    }

    pub fn new() -> (r: Self)
        ensures
            r.wf(),
            !r.is_mega(),
            r.slot_count() == 0,
            r.cache() == Map::<ShapeId, u32>::empty(),
            r.hits_count() == 0 && r.misses_count() == 0 && r.mega_lookups_count() == 0,
    {
        let r = PolyIc { slots: [None; N], len: 0, mega: false, dict: Vec::new(), hits: 0, misses: 0, mega_lookups: 0 };
        assert(r.entries() =~= Seq::<(ShapeId, u32)>::empty());
        assert(r.cache() =~= Map::<ShapeId, u32>::empty());
        r
    }

    pub fn state(&self) -> (r: IcState)
        ensures
            r == (if self.is_mega() {
                IcState::Mega
            } else if self.slot_count() == 0 {
                IcState::Uninit
            } else if self.slot_count() == 1 {
                IcState::Mono
            } else {
                IcState::Poly
            }),
    {
        if self.mega {
            IcState::Mega
        } else if self.len == 0 {
            IcState::Uninit
        } else if self.len == 1 {
            IcState::Mono
        } else {
            IcState::Poly
        }
    }

    /// A cached shape answers from the cache without calling `resolve`; an unknown shape is
    /// resolved and cached: in a free slot while one is left, else the cache turns
    /// megamorphic and moves every entry into its dictionary.
    #[verifier::loop_isolation(false)]
    pub fn lookup<F: FnOnce() -> u32>(&mut self, shape: ShapeId, resolve: F) -> (r: u32)
        requires
            old(self).wf(),
            old(self).hits_count() < u64::MAX,
            old(self).misses_count() < u64::MAX,
            old(self).mega_lookups_count() < u64::MAX,
            !old(self).cache().dom().contains(shape) ==> resolve.requires(()),
        ensures
            final(self).wf(),
            final(self).mega_lookups_count() == old(self).mega_lookups_count() + (if old(self).is_mega() { 1int } else { 0 }),
            old(self).cache().dom().contains(shape) ==> {
                &&& r == old(self).cache()[shape]
                &&& final(self).cache() == old(self).cache()
                &&& final(self).hits_count() == old(self).hits_count() + 1
                &&& final(self).misses_count() == old(self).misses_count()
                &&& final(self).is_mega() == old(self).is_mega()
                &&& final(self).slot_count() == old(self).slot_count()
            },
            !old(self).cache().dom().contains(shape) ==> {
                &&& resolve.ensures((), r)
                &&& final(self).cache() == old(self).cache().insert(shape, r)
                &&& final(self).hits_count() == old(self).hits_count()
                &&& final(self).misses_count() == old(self).misses_count() + 1
                &&& final(self).is_mega() == (old(self).is_mega() || old(self).slot_count() == N)
                &&& !final(self).is_mega() ==> final(self).slot_count() == old(self).slot_count() + 1
            },
    {
        let ghost e0 = self.entries();
        if self.mega {
            self.mega_lookups = self.mega_lookups + 1;
            let mut k: usize = 0;
            while k < self.dict.len()
                invariant
                    self.mega,
                    self.dict@ == e0,
                    self.hits == old(self).hits,
                    self.misses == old(self).misses,
                    self.mega_lookups == old(self).mega_lookups + 1,
                    self.len == old(self).len,
                    self.slots == old(self).slots,
                    k <= self.dict@.len(),
                    forall|j: int| 0 <= j < k ==> (#[trigger] self.dict@[j]).0 != shape,
                decreases self.dict@.len() - k,
            {
                let (s, v) = self.dict[k];
                if s == shape {
                    self.hits = self.hits + 1;
                    proof {
                        lemma_value_at(e0, k as int);
                    }
                    return v;
                }
                k = k + 1;
            }
            self.misses = self.misses + 1;
            let v = resolve();
            proof {
                lemma_push_new(e0, shape, v);
            }
            self.dict.push((shape, v));
            return v;
        }
        let mut i: usize = 0;
        while i < self.len
            invariant
                !self.mega,
                self.len <= N,
                e0 == self.slot_entries(),
                self.hits == old(self).hits,
                self.misses == old(self).misses,
                self.slots == old(self).slots,
                self.len == old(self).len,
                self.dict == old(self).dict,
                self.mega_lookups == old(self).mega_lookups,
                forall|j: int| 0 <= j < self.len ==> (#[trigger] self.slots@[j]) is Some,
                i <= self.len,
                forall|j: int| 0 <= j < i ==> (#[trigger] e0[j]).0 != shape,
            decreases self.len - i,
        {
            if let Some(slot) = self.slots[i] {
                if slot.shape == shape {
                    self.hits = self.hits + 1;
                    proof {
                        assert(e0[i as int] == (slot.shape, slot.cached));
                        lemma_value_at(e0, i as int);
                    }
                    if i > 0 {
                        let first = self.slots[0];
                        self.slots[0] = self.slots[i];
                        self.slots[i] = first;
                        proof {
                            lemma_swap_same_map(e0, 0, i as int);
                            assert(self.slot_entries() =~= e0.update(0, e0[i as int]).update(i as int, e0[0]));
                            assert(forall|j: int| 0 <= j < self.len ==> (#[trigger] self.slots@[j]) is Some);
                        }
                    }
                    return slot.cached;
                }
            }
            i = i + 1;
        }
        self.misses = self.misses + 1;
        let cached = resolve();
        proof {
            lemma_push_new(e0, shape, cached);
        }
        if self.len < N {
            self.slots[self.len] = Some(IcSlot { shape, cached });
            self.len = self.len + 1;
            assert(self.slot_entries() =~= e0.push((shape, cached)));
        } else {
            self.mega = true;
            let mut j: usize = 0;
            while j < self.len
                invariant
                    self.mega,
                    self.len == N,
                    e0 == self.slot_entries(),
                    self.hits == old(self).hits,
                    self.misses == old(self).misses + 1,
                    self.mega_lookups == old(self).mega_lookups,
                    forall|k: int| 0 <= k < self.len ==> (#[trigger] self.slots@[k]) is Some,
                    j <= self.len,
                    self.dict@ == e0.subrange(0, j as int),
                decreases self.len - j,
            {
                if let Some(slot) = self.slots[j] {
                    self.dict.push((slot.shape, slot.cached));
                }
                j = j + 1;
                assert(self.dict@ =~= e0.subrange(0, j as int));
            }
            assert(e0.subrange(0, self.len as int) == e0);
            self.dict.push((shape, cached));
        }
        cached
    }
}

} // verus!
