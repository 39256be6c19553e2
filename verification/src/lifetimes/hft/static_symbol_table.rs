//! Symbols interned once at start-up and resolved to dense ids.
use vstd::prelude::*;
use crate::text::str_eq;

verus! {

/// Symbol names by id; a name resolves to the id of its last occurrence.
pub struct SymbolRegistry {
    by_id: Vec<&'static str>,
}

/// The last position of `name` among the first `k` names.
pub open spec fn last_index(names: Seq<Seq<char>>, name: Seq<char>, k: nat) -> Option<nat>
    decreases k,
{
    if k == 0 || k > names.len() {
        None
    } else if names[k - 1] == name {
        Some((k - 1) as nat)
    } else {
        last_index(names, name, (k - 1) as nat)
    }
}

/// The texts of a list of names.
pub open spec fn name_views(names: Seq<&'static str>) -> Seq<Seq<char>> {
    names.map_values(|s: &'static str| s@)
}

/// A name found by `last_index` sits at that position, and no later position holds it.
pub proof fn lemma_last_index(names: Seq<Seq<char>>, name: Seq<char>, k: nat)
    requires
        k <= names.len(),
    ensures
        last_index(names, name, k) matches Some(i) ==> i < k && names[i as int] == name && forall|j: int|
            i < j < k ==> names[j] != name,
        last_index(names, name, k) is None ==> forall|j: int| 0 <= j < k ==> names[j] != name,
    decreases k,
{
    if k > 0 {
        lemma_last_index(names, name, (k - 1) as nat);
    }
}

/// With distinct names, resolving the name registered under an id gives that id back.
pub proof fn lemma_resolve_name_roundtrip(names: Seq<Seq<char>>, id: nat)
    requires
        names.no_duplicates(),
        id < names.len(),
    ensures
        last_index(names, names[id as int], names.len()) == Some(id),
{
    lemma_last_index(names, names[id as int], names.len());
}

impl SymbolRegistry {
    /// The registered names, by id.
    pub closed spec fn names(&self) -> Seq<Seq<char>> {
        name_views(self.by_id@)
    }

    /// Registers the names in order: the name at position `i` gets id `i`.
    pub fn from_static_list(names: &[&'static str]) -> (r: Self)
        ensures
            r.names() == name_views(names@),
    {
        let mut by_id: Vec<&'static str> = Vec::new();
        let mut i: usize = 0;
        while i < names.len()
            invariant
                i <= names@.len(),
                by_id@ == names@.subrange(0, i as int),
            decreases names@.len() - i,
        {
            by_id.push(names[i]);
            i = i + 1;
        }
        assert(names@.subrange(0, names@.len() as int) =~= names@);
        SymbolRegistry { by_id }
    }

    /// The id of a name: the position of its last registration, as a `u32`.
    pub fn resolve(&self, name: &str) -> (r: Option<u32>)
        ensures
            match last_index(self.names(), name@, self.names().len()) {
                Some(i) => r == Some(i as u32),
                None => r is None,
            },
    {
        let mut k: usize = self.by_id.len();
        while k > 0
            invariant
                k <= self.by_id@.len(),
                last_index(self.names(), name@, self.names().len()) == last_index(self.names(), name@, k as nat),
            decreases k,
        {
            if str_eq(self.by_id[k - 1], name) {
                return Some((k - 1) as u32);
            }
            k = k - 1;
        }
        None
    }

    /// The name registered under an id.
    pub fn name(&self, id: u32) -> (r: Option<&'static str>)
        ensures
            (id as int) < self.names().len() ==> (r matches Some(s) && s@ == self.names()[id as int]),
            (id as int) >= self.names().len() ==> r is None,
    {
        let i = id as usize;
        if i < self.by_id.len() {
            Some(self.by_id[i])
        } else {
            None
        }
    }
}

} // verus!
