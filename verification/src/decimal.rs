//! Text to numbers: decimal integers as Rust's `parse` reads them, lines as
//! `str::lines` splits them, and comma-separated fields.
use vstd::prelude::*;

verus! {

/// An ASCII decimal digit.
pub open spec fn is_dec_digit(b: u8) -> bool {
    48 <= b <= 57
}

/// Every byte is a decimal digit.
pub open spec fn all_dec_digits(s: Seq<u8>) -> bool {
    forall|i: int| 0 <= i < s.len() ==> is_dec_digit(#[trigger] s[i])
}

/// The value of a string of decimal digits.
pub open spec fn dec_value(s: Seq<u8>) -> nat
    decreases s.len(),
{
    if s.len() == 0 {
        0
    } else {
        dec_value(s.drop_last()) * 10 + (s.last() - 48) as nat
    }
}

/// The digits after an optional leading `+`.
pub open spec fn unsigned_digits(s: Seq<u8>) -> Seq<u8> {
    if s.len() > 0 && s[0] == 43 { s.drop_first() } else { s }
}

/// What `u64`'s `parse` gives: an optional `+`, then at least one digit and nothing else,
/// the value fitting in a `u64`.
pub open spec fn parse_u64_spec(s: Seq<u8>) -> Option<u64> {
    let d = unsigned_digits(s);
    if d.len() > 0 && all_dec_digits(d) && dec_value(d) <= u64::MAX {
        Some(dec_value(d) as u64)
    } else {
        None
    }
}

/// What `i64`'s `parse` gives: an optional `+` or `-`, then at least one digit and
/// nothing else, the value fitting in an `i64`.
pub open spec fn parse_i64_spec(s: Seq<u8>) -> Option<i64> {
    if s.len() > 0 && s[0] == 45 {
        let d = s.drop_first();
        if d.len() > 0 && all_dec_digits(d) && dec_value(d) <= 0x8000_0000_0000_0000 {
            Some((-dec_value(d)) as i64)
        } else {
            None
        }
    } else {
        let d = unsigned_digits(s);
        if d.len() > 0 && all_dec_digits(d) && dec_value(d) <= i64::MAX {
            Some(dec_value(d) as i64)
        } else {
            None
        }
    }
}

/// Reads the digits of `s` from `start` to its end, or `None` if one is not a digit or
/// the value passes `limit`.
fn digits_upto(s: &[u8], start: usize, limit: u64) -> (r: Option<u64>)
    requires
        start <= s@.len(),
        limit >= 9,
    ensures
        ({
            let d = s@.subrange(start as int, s@.len() as int);
            match r {
                Some(v) => all_dec_digits(d) && dec_value(d) <= limit && v == dec_value(d),
                None => !all_dec_digits(d) || dec_value(d) > limit,
            }
        }),
{
    let ghost d = s@.subrange(start as int, s@.len() as int);
    let mut v: u64 = 0;
    let mut i: usize = start;
    while i < s.len()
        invariant
            start <= i <= s@.len(),
            d == s@.subrange(start as int, s@.len() as int),
            all_dec_digits(s@.subrange(start as int, i as int)),
            v == dec_value(s@.subrange(start as int, i as int)),
            v <= limit,
            limit >= 9,
        decreases s@.len() - i,
    {
        let b = s[i];
        proof {
            assert(s@.subrange(start as int, i + 1).drop_last() =~= s@.subrange(start as int, i as int));
        }
        if b < 48 || b > 57 {
            proof {
                assert(!is_dec_digit(d[i - start]));
            }
            return None;
        }
        let digit = (b - 48) as u64;
        if v > (limit - digit) / 10 {
            proof {
                assert(v * 10 + digit > limit) by (nonlinear_arith)
                    requires
                        v > (limit - digit) / 10,
                        digit <= 9,
                        limit >= 9,
                ;
                assert(d.subrange(0, i + 1 - start) =~= s@.subrange(start as int, i + 1));
                lemma_digits_grow(s@.subrange(start as int, s@.len() as int), (i + 1 - start) as nat, limit);
            }
            return None;
        }
        assert(v * 10 + digit <= limit) by (nonlinear_arith)
            requires
                v <= (limit - digit) / 10,
                digit <= 9,
                limit >= 9,
        ;
        v = v * 10 + digit;
        i = i + 1;
    }
    assert(s@.subrange(start as int, i as int) =~= d);
    Some(v)
}

/// A value never shrinks as digits are appended.
proof fn lemma_dec_prefix_le(s: Seq<u8>, k: nat)
    requires
        k <= s.len(),
        all_dec_digits(s),
    ensures
        dec_value(s.subrange(0, k as int)) <= dec_value(s),
    decreases s.len() - k,
{
    if k < s.len() {
        lemma_dec_prefix_le(s, k + 1);
        assert(s.subrange(0, k + 1 as int).drop_last() =~= s.subrange(0, k as int));
    } else {
        assert(s.subrange(0, k as int) =~= s);
    }
}

/// Once a prefix passes `limit`, the whole string does, or it has a non-digit.
proof fn lemma_digits_grow(s: Seq<u8>, k: nat, limit: u64)
    requires
        k <= s.len(),
        all_dec_digits(s.subrange(0, k as int)) ==> dec_value(s.subrange(0, k as int)) > limit,
    ensures
        !all_dec_digits(s) || dec_value(s) > limit,
{
    if all_dec_digits(s) {
        assert(all_dec_digits(s.subrange(0, k as int)));
        lemma_dec_prefix_le(s, k);
    }
}

/// Parses a `u64` as Rust's `parse` does.
pub fn parse_u64(s: &[u8]) -> (r: Option<u64>)
    ensures
        r == parse_u64_spec(s@),
{
    let start: usize = if s.len() > 0 && s[0] == 43 { 1 } else { 0 };
    assert(unsigned_digits(s@) =~= s@.subrange(start as int, s@.len() as int));
    if start == s.len() {
        return None;
    }
    digits_upto(s, start, u64::MAX)
}

/// Parses an `i64` as Rust's `parse` does.
pub fn parse_i64(s: &[u8]) -> (r: Option<i64>)
    ensures
        r == parse_i64_spec(s@),
{
    if s.len() > 0 && s[0] == 45 {
        assert(s@.drop_first() =~= s@.subrange(1, s@.len() as int));
        if s.len() == 1 {
            return None;
        }
        match digits_upto(s, 1, 0x8000_0000_0000_0000) {
            Some(v) => {
                if v == 0x8000_0000_0000_0000 {
                    Some(i64::MIN)
                } else {
                    Some(-(v as i64))
                }
            },
            None => None,
        }
    } else {
        let start: usize = if s.len() > 0 && s[0] == 43 { 1 } else { 0 };
        assert(unsigned_digits(s@) =~= s@.subrange(start as int, s@.len() as int));
        if start == s.len() {
            return None;
        }
        match digits_upto(s, start, i64::MAX as u64) {
            Some(v) => Some(v as i64),
            None => None,
        }
    }
}

/// Where the line starting at `start` ends: the index of its newline, or the end.
pub open spec fn newline_at(s: Seq<u8>, start: nat) -> nat
    decreases s.len() - start,
{
    if start >= s.len() {
        s.len()
    } else if s[start as int] == 10 {
        start
    } else {
        newline_at(s, start + 1)
    }
}

/// A line without its trailing carriage return.
pub open spec fn strip_cr(l: Seq<u8>) -> Seq<u8> {
    if l.len() > 0 && l.last() == 13 { l.drop_last() } else { l }
}

/// The lines of a text from `start` on, as `str::lines` gives them: split at newlines,
/// a carriage return just before a newline dropped with it, and no empty line after a
/// final newline.
pub open spec fn lines_from(s: Seq<u8>, start: nat) -> Seq<Seq<u8>>
    decreases s.len() - start,
{
    if start >= s.len() {
        Seq::empty()
    } else {
        let e = newline_at(s, start);
        if start <= e < s.len() {
            seq![strip_cr(s.subrange(start as int, e as int))] + lines_from(s, e + 1)
        } else {
            seq![s.subrange(start as int, s.len() as int)]
        }
    }
}

pub proof fn lemma_newline_at(s: Seq<u8>, start: nat)
    ensures
        start <= s.len() ==> start <= newline_at(s, start) <= s.len(),
        newline_at(s, start) < s.len() ==> s[newline_at(s, start) as int] == 10,
        forall|j: int| start <= j < newline_at(s, start) ==> s[j] != 10,
    decreases s.len() - start,
{
    if start < s.len() && s[start as int] != 10 {
        lemma_newline_at(s, start + 1);
    }
}

/// Finds the end of the line that starts at `start`.
pub fn find_newline(s: &[u8], start: usize) -> (e: usize)
    requires
        start <= s@.len(),
    ensures
        e == newline_at(s@, start as nat),
        start <= e <= s@.len(),
{
    let mut e = start;
    while e < s.len() && s[e] != 10
        invariant
            start <= e <= s@.len(),
            newline_at(s@, start as nat) == newline_at(s@, e as nat),
        decreases s@.len() - e,
    {
        e = e + 1;
    }
    e
}

/// The line between `start` and `end`, without a trailing carriage return.
pub fn line_slice(s: &[u8], start: usize, end: usize) -> (r: &[u8])
    requires
        start <= end <= s@.len(),
    ensures
        r@ == strip_cr(s@.subrange(start as int, end as int)),
{
    let stop = if end > start && s[end - 1] == 13 { end - 1 } else { end };
    let r = vstd::slice::slice_subrange(s, start, stop);
    assert(r@ =~= strip_cr(s@.subrange(start as int, end as int)));
    r
}

/// Where the field starting at `start` ends: the index of the next comma, or the end.
pub open spec fn comma_at(s: Seq<u8>, start: nat) -> nat
    decreases s.len() - start,
{
    if start >= s.len() {
        s.len()
    } else if s[start as int] == 44 {
        start
    } else {
        comma_at(s, start + 1)
    }
}

/// The first comma-separated field.
pub open spec fn field0(s: Seq<u8>) -> Seq<u8> {
    s.subrange(0, comma_at(s, 0) as int)
}

/// The second comma-separated field, if there is a comma.
pub open spec fn field1(s: Seq<u8>) -> Option<Seq<u8>> {
    let c = comma_at(s, 0);
    if c < s.len() {
        Some(s.subrange(c + 1 as int, comma_at(s, c + 1) as int))
    } else {
        None
    }
}

pub proof fn lemma_comma_at(s: Seq<u8>, start: nat)
    ensures
        start <= s.len() ==> start <= comma_at(s, start) <= s.len(),
    decreases s.len() - start,
{
    if start < s.len() && s[start as int] != 44 {
        lemma_comma_at(s, start + 1);
    }
}

/// Finds the end of the field that starts at `start`.
pub fn find_comma(s: &[u8], start: usize) -> (e: usize)
    requires
        start <= s@.len(),
    ensures
        e == comma_at(s@, start as nat),
        start <= e <= s@.len(),
{
    let mut e = start;
    while e < s.len() && s[e] != 44
        invariant
            start <= e <= s@.len(),
            comma_at(s@, start as nat) == comma_at(s@, e as nat),
        decreases s@.len() - e,
    {
        e = e + 1;
    }
    e
}

/// The first two comma-separated fields of a line; the second is `None` without a comma.
pub fn two_fields(s: &[u8]) -> (r: (&[u8], Option<&[u8]>))
    ensures
        r.0@ == field0(s@),
        match r.1 {
            Some(f) => field1(s@) == Some(f@),
            None => field1(s@) is None,
        },
{
    let c = find_comma(s, 0);
    let f0 = vstd::slice::slice_subrange(s, 0, c);
    if c < s.len() {
        let c2 = find_comma(s, c + 1);
        (f0, Some(vstd::slice::slice_subrange(s, c + 1, c2)))
    } else {
        (f0, None)
    }
}

} // verus!
