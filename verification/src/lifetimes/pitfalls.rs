//! The fixes for common borrowing mistakes: return owned text, keep views inside the
//! buffer's scope, use offsets instead of inner references, collect owned words, keep
//! connection-scoped strings in connection-scoped caches.
use vstd::prelude::*;
use std::marker::PhantomData;
use vstd::string::StrSliceExecFns;
use crate::lifetimes::basics::{is_whitespace, lemma_skip_word, skip_word, skip_ws};

verus! {

/// Returns an owned string instead of a reference to a local.
pub fn good() -> (r: String)
    ensures
        r@ == "owned"@,
{
    "owned".to_owned()
}

/// An order view that borrows its id from the buffer it was parsed from.
pub struct OrderView<'buf> {
    pub id: &'buf [u8],
}

/// The view over the whole buffer.
pub fn parse<'buf>(raw: &'buf [u8]) -> (r: OrderView<'buf>)
    ensures
        r.id@ == raw@,
{
    OrderView { id: raw }
}

/// The buffer outlives the view taken from it.
pub fn good_pattern() {
    let raw: Vec<u8> = vec![79u8, 82, 68, 45, 48, 48, 49];
    let view = parse(raw.as_slice());
    let _id = view.id;
}

/// A cursor over an owned buffer that keeps an offset in place of an inner reference.
pub struct SafeParser {
    buf: Vec<u8>,
    offset: usize,
}

impl SafeParser {
    pub closed spec fn bytes(&self) -> Seq<u8> {
        self.buf@
    }

    pub closed spec fn pos(&self) -> usize {
        self.offset
    }

    pub fn new(data: &[u8]) -> (r: Self)
        ensures
            r.bytes() == data@,
            r.pos() == 0,
    {
        SafeParser { buf: vstd::slice::slice_to_vec(data), offset: 0 }
    }

    /// The byte under the cursor; none past the end.
    pub fn current(&self) -> (r: Option<u8>)
        ensures
            (self.pos() as int) < self.bytes().len() ==> r == Some(self.bytes()[self.pos() as int]),
            (self.pos() as int) >= self.bytes().len() ==> r is None,
    {
        if self.offset < self.buf.len() {
            Some(self.buf[self.offset])
        } else {
            None
        }
    }

    /// Moves the cursor one byte on, stopping at the end.
    pub fn advance(&mut self)
        ensures
            final(self).bytes() == old(self).bytes(),
            final(self).pos() == (if (old(self).pos() as int) < old(self).bytes().len() {
                (old(self).pos() + 1) as usize
            } else {
                old(self).pos()
            }),
    {
        if self.offset < self.buf.len() {
            self.offset = self.offset + 1;
        }
    }
}

/// A marker for a value that would borrow from itself.
pub struct PinPlaceholder<'a> {
    pub _marker: PhantomData<&'a u8>,
}

/// The whitespace-separated words of `s` from position `i` on.
pub open spec fn words_from(s: Seq<char>, i: nat) -> Seq<Seq<char>>
    decreases s.len() - i,
{
    let a = skip_ws(s, i);
    if i >= s.len() || a >= s.len() {
        Seq::empty()
    } else {
        let b = skip_word(s, a);
        proof {
            lemma_skip_word(s, a);
        }
        if b <= i {
            Seq::empty()
        } else {
            seq![s.subrange(a as int, b as int)] + words_from(s, b)
        }
    }
}

proof fn lemma_skips(s: Seq<char>, i: nat)
    requires
        i <= s.len(),
    ensures
        i <= skip_ws(s, i) <= s.len(),
        skip_ws(s, i) < s.len() ==> skip_ws(s, i) < skip_word(s, skip_ws(s, i)) <= s.len(),
    decreases s.len() - i,
{
    if i < s.len() && is_ws_at(s, i) {
        lemma_skips(s, i + 1);
    } else {
        let a = skip_ws(s, i);
        if a < s.len() {
            lemma_word(s, a);
        }
    }
}

spec fn is_ws_at(s: Seq<char>, i: nat) -> bool {
    crate::lifetimes::basics::is_ws(s[i as int])
}

proof fn lemma_word(s: Seq<char>, a: nat)
    requires
        a < s.len(),
        !crate::lifetimes::basics::is_ws(s[a as int]),
    ensures
        a < skip_word(s, a) <= s.len(),
{
    lemma_skip_word(s, a + 1);
}

/// The whitespace-separated words of the text, each copied into an owned string.
pub fn good_lines(text: &str) -> (r: Vec<String>)
    ensures
        r@.map_values(|w: String| w@) == words_from(text@, 0),
{
    let n = text.unicode_len();
    let mut out: Vec<String> = Vec::new();
    let mut i: usize = 0;
    while i < n
        invariant
            n == text@.len(),
            i <= n,
            out@.map_values(|w: String| w@) + words_from(text@, i as nat) == words_from(text@, 0),
        ensures
            i == n,
        decreases n - i,
    {
        proof {
            lemma_skips(text@, i as nat);
        }
        let mut a: usize = i;
        while a < n && is_whitespace(text.get_char(a))
            invariant
                n == text@.len(),
                i <= a <= n,
                skip_ws(text@, a as nat) == skip_ws(text@, i as nat),
            decreases n - a,
        {
            a = a + 1;
        }
        if a >= n {
            assert(words_from(text@, i as nat) =~= Seq::<Seq<char>>::empty());
            assert(out@.map_values(|w: String| w@) + Seq::<Seq<char>>::empty() =~= out@.map_values(|w: String| w@));
            i = n;
            break;
        }
        let mut b: usize = a;
        while b < n && !is_whitespace(text.get_char(b))
            invariant
                n == text@.len(),
                a <= b <= n,
                a == skip_ws(text@, i as nat),
                skip_word(text@, b as nat) == skip_word(text@, a as nat),
            decreases n - b,
        {
            b = b + 1;
        }
        let w = text.substring_char(a, b);
        let ghost before = out@.map_values(|w: String| w@);
        out.push(w.to_owned());
        assert(out@.map_values(|w: String| w@) =~= before.push(w@));
        assert(before.push(w@) + words_from(text@, b as nat) =~= before + words_from(text@, i as nat));
        i = b;
    }
    proof {
        if i >= n {
            assert(words_from(text@, i as nat) =~= Seq::<Seq<char>>::empty());
            assert(out@.map_values(|w: String| w@) + Seq::<Seq<char>>::empty() =~= out@.map_values(|w: String| w@));
        }
    }
    out
}

/// A cache that lives as long as one connection and keeps the last method seen on it.
pub struct ConnCache<'conn> {
    pub last_method: Option<&'conn str>,
}

/// Records the method of a frame of this connection.
pub fn on_message<'conn>(cache: &mut ConnCache<'conn>, method: &'conn str)
    ensures
        final(cache).last_method == Some(method),
{
    cache.last_method = Some(method);
}

/// An event whose topic and label come from two different buffers.
pub struct Event<'topic, 'label> {
    pub topic: &'topic [u8],
    pub label: &'label str,
}

/// Pairs a topic and a label, each keeping its own lifetime.
pub fn merge<'t, 'l>(topic: &'t [u8], label: &'l str) -> (r: Event<'t, 'l>)
    ensures
        r.topic == topic,
        r.label == label,
{
    Event { topic, label }
}

/// A named event handler.
pub trait Handler {
    fn name(&self) -> &str;
}

/// A handler that logs under a tag.
pub struct LogHandler {
    pub tag: String,
}

impl Handler for LogHandler {
    fn name(&self) -> (r: &str)
        ensures
            r@ == self.tag@,
    {
        self.tag.as_str()
    }
}

} // verus!
