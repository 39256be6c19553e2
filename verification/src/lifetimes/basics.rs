//! Views that borrow from their inputs: the longer of two strings, the first word of a
//! text, a book level that points at its venue tag.
use vstd::prelude::*;
use vstd::string::{StrSliceExecFns, StringSliceAdditionalSpecFns};
use crate::generics::pitfalls::utf8_view;

verus! {

/// The longer of two strings by byte length; the first on a tie.
pub fn longest<'a>(x: &'a str, y: &'a str) -> (r: &'a str)
    ensures
        r == (if x.len() >= y.len() { x } else { y }),
{
    if x.len() >= y.len() {
        x
    } else {
        y
    }
}

/// A book level whose venue tag points into a wire buffer.
pub struct BookLevelView<'buf> {
    pub px: i64,
    pub qty: i64,
    pub venue_tag: &'buf [u8],
}

/// The bytes are the UTF-8 encoding of some text.
pub open spec fn is_utf8(b: Seq<u8>) -> bool {
    exists|cs: Seq<char>| vstd::utf8::encode_utf8(cs) == b
}

impl BookLevelView<'_> {
    /// The venue tag as text, or the empty string when it is not UTF-8.
    pub fn tag_str(&self) -> (r: &str)
        ensures
            is_utf8(self.venue_tag@) ==> r.spec_bytes() == self.venue_tag@,
            !is_utf8(self.venue_tag@) ==> r@ == Seq::<char>::empty(),
    {
        match utf8_view(self.venue_tag) {
            Some(s) => s,
            None => {
                proof {
                    reveal_strlit("");
                }
                ""
            },
        }
    }
}

/// Bid and ask quotes borrowed from two different buffers.
pub struct SpreadQuote<'bid, 'ask> {
    pub bid: &'bid [u8],
    pub ask: &'ask [u8],
}

/// The characters with the Unicode `White_Space` property.
pub open spec fn is_ws(c: char) -> bool {
    ||| ('\u{9}' <= c && c <= '\u{d}')
    ||| c == ' '
    ||| c == '\u{85}'
    ||| c == '\u{a0}'
    ||| c == '\u{1680}'
    ||| ('\u{2000}' <= c && c <= '\u{200a}')
    ||| c == '\u{2028}'
    ||| c == '\u{2029}'
    ||| c == '\u{202f}'
    ||| c == '\u{205f}'
    ||| c == '\u{3000}'
}

/// Whether a character is Unicode white space.
pub fn is_whitespace(c: char) -> (r: bool)
    ensures
        r == is_ws(c),
{
    ('\u{9}' <= c && c <= '\u{d}') || c == ' ' || c == '\u{85}' || c == '\u{a0}' || c == '\u{1680}'
        || ('\u{2000}' <= c && c <= '\u{200a}') || c == '\u{2028}' || c == '\u{2029}' || c
        == '\u{202f}' || c == '\u{205f}' || c == '\u{3000}'
}

/// The first position at or after `i` that holds no white space, or the length.
pub open spec fn skip_ws(s: Seq<char>, i: nat) -> nat
    decreases s.len() - i,
{
    if i >= s.len() {
        s.len()
    } else if is_ws(s[i as int]) {
        skip_ws(s, i + 1)
    } else {
        i
    }
}

/// The first position at or after `i` that holds white space, or the length.
pub open spec fn skip_word(s: Seq<char>, i: nat) -> nat
    decreases s.len() - i,
{
    if i >= s.len() {
        s.len()
    } else if is_ws(s[i as int]) {
        i
    } else {
        skip_word(s, i + 1)
    }
}

/// The first whitespace-separated word of a text; empty when it has none.
pub open spec fn first_word_spec(s: Seq<char>) -> Seq<char> {
    let a = skip_ws(s, 0);
    s.subrange(a as int, skip_word(s, a) as int)
}

pub proof fn lemma_skip_ws(s: Seq<char>, i: nat)
    requires
        i <= s.len(),
    ensures
        i <= skip_ws(s, i) <= s.len(),
    decreases s.len() - i,
{
    if i < s.len() && is_ws(s[i as int]) {
        lemma_skip_ws(s, i + 1);
    }
}

pub proof fn lemma_skip_word(s: Seq<char>, i: nat)
    requires
        i <= s.len(),
    ensures
        i <= skip_word(s, i) <= s.len(),
    decreases s.len() - i,
{
    if i < s.len() && !is_ws(s[i as int]) {
        lemma_skip_word(s, i + 1);
    }
}

/// The first whitespace-separated word of a text, borrowed from it; empty when it has
/// none.
pub fn first_word(s: &str) -> (r: &str)
    ensures
        r@ == first_word_spec(s@),
{
    let n = s.unicode_len();
    let mut a: usize = 0;
    proof {
        lemma_skip_ws(s@, 0);
    }
    while a < n && is_whitespace(s.get_char(a))
        invariant
            n == s@.len(),
            a <= n,
            skip_ws(s@, a as nat) == skip_ws(s@, 0),
        decreases n - a,
    {
        a = a + 1;
    }
    let mut b: usize = a;
    proof {
        lemma_skip_word(s@, a as nat);
    }
    while b < n && !is_whitespace(s.get_char(b))
        invariant
            n == s@.len(),
            a <= b <= n,
            a == skip_ws(s@, 0),
            skip_word(s@, b as nat) == skip_word(s@, a as nat),
        decreases n - b,
    {
        b = b + 1;
    }
    s.substring_char(a, b)
}

} // verus!
