//! General recipes: a frame split into borrowed header and body, scratch work in an
//! arena, a `Cow` made owned at a boundary, bytes promoted to shared ownership, a callback
//! over borrowed items, an interner, a two-phase parse and commit, and a cache of owned
//! strings.
use vstd::prelude::*;
use std::borrow::Cow;
use std::collections::HashMap;
use std::sync::Arc;
use bumpalo::Bump;
use crate::text::str_eq;

verus! {

broadcast use vstd::std_specs::hash::group_hash_axioms;

/// A frame viewed as a header and a body, both borrowed from it.
pub struct FrameView<'buf> {
    pub header: &'buf [u8],
    pub body: &'buf [u8],
}

/// Splits a frame after `header_len` bytes; none when it is shorter than that.
pub fn split_frame<'buf>(raw: &'buf [u8], header_len: usize) -> (r: Option<FrameView<'buf>>)
    ensures
        raw@.len() < header_len ==> r is None,
        raw@.len() >= header_len ==> (r matches Some(v) && v.header@ == raw@.subrange(0, header_len as int)
            && v.body@ == raw@.subrange(header_len as int, raw@.len() as int)),
{
    if raw.len() < header_len {
        return None;
    }
    Some(
        FrameView {
            header: vstd::slice::slice_subrange(raw, 0, header_len),
            body: vstd::slice::slice_subrange(raw, header_len, raw.len()),
        },
    )
}

/// `Bump::new`: a fresh, empty arena.
#[verifier::external_body]
pub(crate) fn new_bump() -> Bump {
    Bump::new()
}

/// Runs `f` with a scratch arena that is dropped when it returns.
pub fn with_arena<R, F: for<'a> FnOnce(&'a Bump) -> R>(f: F) -> (r: R)
    requires
        forall|b: &Bump| #[trigger] f.requires((b,)),
    ensures
        exists|b: &Bump| #[trigger] f.ensures((b,), r),
{
    let bump = new_bump();
    f(&bump)
}

/// Makes the identifier owned, whichever way it came in.
pub fn normalize_id(input: Cow<'_, [u8]>) -> (r: Cow<'static, [u8]>)
    ensures
        r is Owned,
        r@ == input@,
{
    match input {
        Cow::Borrowed(b) => Cow::Owned(vstd::slice::slice_to_vec(b)),
        Cow::Owned(v) => Cow::Owned(v),
    }
}

/// The bytes an `Arc<[u8]>` holds.
pub uninterp spec fn arc_bytes(a: Arc<[u8]>) -> Seq<u8>;

/// `Arc::<[u8]>::from(&[u8])`: a shared copy of the bytes.
#[verifier::external_body]
pub(crate) fn arc_from_slice(b: &[u8]) -> (r: Arc<[u8]>)
    ensures
        arc_bytes(r) == b@,
{
    Arc::from(b)
}

/// A frame that has left its buffer for shared ownership.
pub struct Message {
    pub bytes: Arc<[u8]>,
}

/// Copies the frame into shared ownership.
pub fn promote(frame: &[u8]) -> (r: Message)
    ensures
        arc_bytes(r.bytes) == frame@,
{
    Message { bytes: arc_from_slice(frame) }
}

/// Calls `f` on each item in order.
pub fn apply_twice<T, F>(items: &[T], mut f: F) where F: for<'a> FnMut(&'a T)
    requires
        forall|g: F, x: &T| #[trigger] g.requires((x,)),
{
    let mut i: usize = 0;
    while i < items.len()
        invariant
            i <= items@.len(),
            forall|g: F, x: &T| #[trigger] g.requires((x,)),
        decreases items@.len() - i,
    {
        f(&items[i]);
        i = i + 1;
    }
}

/// Interned strings with dense ids: each distinct string is stored once.
pub struct Interner {
    storage: Vec<String>,
}

impl Interner {
    /// The stored strings, by id.
    pub closed spec fn names(&self) -> Seq<Seq<char>> {
        self.storage@.map_values(|s: String| s@)
    }

    /// No string is stored twice.
    pub open spec fn wf(&self) -> bool {
        self.names().no_duplicates()
    }

    pub fn new() -> (r: Self)
        ensures
            r.wf(),
            r.names() == Seq::<Seq<char>>::empty(),
    {
        let r = Interner { storage: Vec::new() };
        assert(r.names() =~= Seq::<Seq<char>>::empty());
        r
    }

    /// The id of the string, storing it under the next id when it is new.
    pub fn intern(&mut self, s: &str) -> (id: usize)
        requires
            old(self).wf(),
        ensures
            final(self).wf(),
            old(self).names().contains(s@) ==> final(self).names() == old(self).names() && id < old(
                self,
            ).names().len() && old(self).names()[id as int] == s@,
            !old(self).names().contains(s@) ==> final(self).names() == old(self).names().push(s@)
                && id == old(self).names().len(),
    {
        let mut i: usize = 0;
        while i < self.storage.len()
            invariant
                i <= self.storage@.len(),
                self.wf(),
                self.names() == old(self).names(),
                forall|k: int| 0 <= k < i ==> self.storage@[k]@ != s@,
            decreases self.storage@.len() - i,
        {
            if str_eq(self.storage[i].as_str(), s) {
                assert(self.names()[i as int] == s@);
                return i;
            }
            i = i + 1;
        }
        assert(!self.names().contains(s@)) by {
            if self.names().contains(s@) {
                let k = choose|k: int| 0 <= k < self.names().len() && self.names()[k] == s@;
                assert(self.storage@[k]@ == s@);
            }
        }
        let id = self.storage.len();
        let ghost before = self.names();
        self.storage.push(s.to_owned());
        assert(self.names() =~= before.push(s@));
        id
    }

    /// The string stored under an id.
    pub fn resolve(&self, id: usize) -> (r: &str)
        requires
            id < self.names().len(),
        ensures
            r@ == self.names()[id as int],
    {
        self.storage[id].as_str()
    }
}

/// The header and body of a split frame put back together give the frame.
pub proof fn lemma_split_frame_rejoins(raw: Seq<u8>, header_len: nat)
    requires
        header_len <= raw.len(),
    ensures
        raw.subrange(0, header_len as int) + raw.subrange(header_len as int, raw.len() as int) == raw,
{
    assert(raw.subrange(0, header_len as int) + raw.subrange(header_len as int, raw.len() as int) =~= raw);
}

/// In a store without duplicates a string has one id: interning it again gives the id
/// it got the first time.
pub proof fn lemma_intern_same_id(names: Seq<Seq<char>>, s: Seq<char>, id1: int, id2: int)
    requires
        names.no_duplicates(),
        0 <= id1 < names.len(),
        0 <= id2 < names.len(),
        names[id1] == s,
        names[id2] == s,
    ensures
        id1 == id2,
{
}

/// A draft that borrows its field from the input.
pub struct Draft<'buf> {
    pub field: &'buf str,
}

/// The committed, owned form of a draft.
pub struct Committed {
    pub field: String,
}

/// Reads the input as a draft without copying.
pub fn parse<'buf>(raw: &'buf str) -> (r: Draft<'buf>)
    ensures
        r.field == raw,
{
    Draft { field: raw }
}

/// Copies the draft's field into an owned record.
pub fn commit(draft: Draft<'_>) -> (r: Committed)
    ensures
        r.field@ == draft.field@,
{
    Committed { field: draft.field.to_owned() }
}

/// Owned strings by key; readers borrow them only for the call.
pub struct Cache {
    by_key: HashMap<u64, String>,
}

impl Cache {
    /// The cached strings by key.
    pub closed spec fn entries(&self) -> Map<u64, Seq<char>> {
        self.by_key@.map_values(|s: String| s@)
    }

    pub fn new() -> (r: Self)
        ensures
            r.entries() == Map::<u64, Seq<char>>::empty(),
    {
        let r = Cache { by_key: HashMap::new() };
        assert(r.entries() =~= Map::<u64, Seq<char>>::empty());
        r
    }

    /// Stores a copy of the value under the key, replacing what was there.
    pub fn insert(&mut self, key: u64, value: &str)
        ensures
            final(self).entries() == old(self).entries().insert(key, value@),
    {
        self.by_key.insert(key, value.to_owned());
        assert(self.entries() =~= old(self).entries().insert(key, value@));
    }

    /// The value stored under the key, borrowed from the cache.
    pub fn get(&self, key: u64) -> (r: Option<&str>)
        ensures
            self.entries().contains_key(key) ==> (r matches Some(s) && s@ == self.entries()[key]),
            !self.entries().contains_key(key) ==> r is None,
    {
        match self.by_key.get(&key) {
            Some(s) => Some(s.as_str()),
            None => None,
        }
    }
}

/// A read after a write gives back what was written; other keys keep their values.
pub proof fn lemma_cache_read_after_write(m: Map<u64, Seq<char>>, key: u64, value: Seq<char>, other: u64)
    ensures
        m.insert(key, value).contains_key(key),
        m.insert(key, value)[key] == value,
        other != key ==> m.insert(key, value).contains_key(other) == m.contains_key(other),
        other != key && m.contains_key(other) ==> m.insert(key, value)[other] == m[other],
{
}

} // verus!
