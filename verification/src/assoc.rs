//! Association lists: a sequence of key and value pairs read through the first pair
//! whose key matches.
use vstd::prelude::*;
use crate::inline_caching::strategies::{first_key_index, lemma_first_key_index};

verus! {

/// The value of the first pair keyed `k`, if any.
pub open spec fn lookup_spec<K, V>(e: Seq<(K, V)>, k: K) -> Option<V> {
    match first_key_index(e, k) {
        Some(i) => Some(e[i].1),
        None => None,
    }
}

/// The list after writing `v` under `k`: the first pair keyed `k` takes the new value,
/// or the pair is appended.
pub open spec fn upsert_spec<K, V>(e: Seq<(K, V)>, k: K, v: V) -> Seq<(K, V)> {
    match first_key_index(e, k) {
        Some(i) => e.update(i, (k, v)),
        None => e.push((k, v)),
    }
}

/// No pair is keyed `k`.
pub proof fn lemma_first_key_index_none<K, V>(e: Seq<(K, V)>, k: K)
    requires
        forall|j: int| 0 <= j < e.len() ==> (#[trigger] e[j]).0 != k,
    ensures
        first_key_index(e, k) is None,
{
}

proof fn lemma_first_exists<K, V>(e: Seq<(K, V)>, k: K, i: int)
    requires
        0 <= i < e.len(),
        e[i].0 == k,
    ensures
        exists|w: int| 0 <= w < e.len() && (#[trigger] e[w]).0 == k && forall|j: int| 0 <= j < w ==> (#[trigger] e[j]).0 != k,
    decreases i,
{
    if exists|j: int| 0 <= j < i && (#[trigger] e[j]).0 == k {
        let j = choose|j: int| 0 <= j < i && (#[trigger] e[j]).0 == k;
        lemma_first_exists(e, k, j);
    } else {
        assert(forall|j: int| 0 <= j < i ==> (#[trigger] e[j]).0 != k);
    }
}

/// What `first_key_index` finds: the first pair keyed `k`, or no pair keyed `k` at all.
pub proof fn lemma_first_key_index_spec<K, V>(e: Seq<(K, V)>, k: K)
    ensures
        match first_key_index(e, k) {
            Some(i) => 0 <= i < e.len() && e[i].0 == k && forall|j: int| 0 <= j < i ==> (#[trigger] e[j]).0 != k,
            None => forall|j: int| 0 <= j < e.len() ==> (#[trigger] e[j]).0 != k,
        },
{
    if exists|i: int| 0 <= i < e.len() && (#[trigger] e[i]).0 == k {
        let i = choose|i: int| 0 <= i < e.len() && (#[trigger] e[i]).0 == k;
        lemma_first_exists(e, k, i);
    }
}

/// What a write leaves behind: the written key reads back the written value, and every
/// other key reads what it read before.
pub proof fn lemma_upsert_lookup<K, V>(e: Seq<(K, V)>, k: K, v: V, k2: K)
    ensures
        lookup_spec(upsert_spec(e, k, v), k) == Some(v),
        k2 != k ==> lookup_spec(upsert_spec(e, k, v), k2) == lookup_spec(e, k2),
{
    let e2 = upsert_spec(e, k, v);
    lemma_first_key_index_spec(e, k);
    match first_key_index(e, k) {
        Some(i) => {
            lemma_first_key_index(e2, k, i);
        },
        None => {
            lemma_first_key_index(e2, k, e.len() as int);
        },
    }
    if k2 != k {
        lemma_first_key_index_spec(e, k2);
        assert(e2.len() >= e.len());
        match first_key_index(e, k2) {
            Some(j) => {
                assert forall|w: int| 0 <= w < j implies (#[trigger] e2[w]).0 != k2 by {
                    assert(e[w].0 != k2);
                }
                lemma_first_key_index(e2, k2, j);
            },
            None => {
                assert forall|j: int| 0 <= j < e2.len() implies (#[trigger] e2[j]).0 != k2 by {
                    if j < e.len() {
                        assert(e[j].0 != k2);
                    }
                }
                lemma_first_key_index_none(e2, k2);
            },
        }
    }
}

} // verus!
