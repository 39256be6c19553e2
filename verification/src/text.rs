//! Decimal rendering of integers and text comparison, shared by the modules that build
//! messages.
use vstd::prelude::*;
use vstd::string::StringSliceAdditionalSpecFns;

verus! {

/// The character of a decimal digit.
pub open spec fn digit_char(d: nat) -> char {
    (48 + d) as char
}

/// Decimal digits of `x`, most significant first; `"0"` for zero.
pub open spec fn decimal_chars(x: nat) -> Seq<char>
    decreases x,
{
    if x < 10 {
        seq![digit_char(x)]
    } else {
        decimal_chars(x / 10).push(digit_char(x % 10))
    }
}

/// Decimal rendering of a signed value, with a leading `-` when negative.
pub open spec fn signed_decimal_chars(x: int) -> Seq<char> {
    if x < 0 {
        seq!['-'] + decimal_chars((-x) as nat)
    } else {
        decimal_chars(x as nat)
    }
}

/// The one-character string of decimal digit `d`.
fn digit_str(d: u64) -> (s: &'static str)
    requires
        d < 10,
    ensures
        s@ == seq![digit_char(d as nat)],
{
    match d {
        0 => {
            proof {
                reveal_strlit("0");
            }
            "0"
        },
        1 => {
            proof {
                reveal_strlit("1");
            }
            "1"
        },
        2 => {
            proof {
                reveal_strlit("2");
            }
            "2"
        },
        3 => {
            proof {
                reveal_strlit("3");
            }
            "3"
        },
        4 => {
            proof {
                reveal_strlit("4");
            }
            "4"
        },
        5 => {
            proof {
                reveal_strlit("5");
            }
            "5"
        },
        6 => {
            proof {
                reveal_strlit("6");
            }
            "6"
        },
        7 => {
            proof {
                reveal_strlit("7");
            }
            "7"
        },
        8 => {
            proof {
                reveal_strlit("8");
            }
            "8"
        },
        9 => {
            proof {
                reveal_strlit("9");
            }
            "9"
        },
        _ => {
            proof {
                reveal_strlit("9");
            }
            "9"
        },
    }
}

/// The decimal digits of `x`, as `u64::to_string` writes them.
pub(crate) fn u64_to_decimal(x: u64) -> (s: String)
    ensures
        s@ == decimal_chars(x as nat),
    decreases x,
{
    if x < 10 {
        String::from_str(digit_str(x))
    } else {
        let mut s = u64_to_decimal(x / 10);
        s.append(digit_str(x % 10));
        s
    }
}

/// `d` with zeros in front to make it `width` characters long, or `d` itself if it is
/// that long already: what the `0` flag and a width do in a format string.
pub open spec fn zero_pad(d: Seq<char>, width: nat) -> Seq<char> {
    if d.len() < width {
        Seq::new((width - d.len()) as nat, |i: int| '0') + d
    } else {
        d
    }
}

/// The number of decimal digits of `x`.
fn decimal_len(x: u64) -> (n: u64)
    ensures
        n == decimal_chars(x as nat).len(),
        1 <= n <= 1 + x,
    decreases x,
{
    if x < 10 {
        1
    } else {
        1 + decimal_len(x / 10)
    }
}

/// The decimal digits of `x` with zeros in front to make at least `width` of them, as
/// `format!("{:0width$}", x)` writes them.
pub(crate) fn u64_to_decimal_padded(x: u64, width: u64) -> (s: String)
    ensures
        s@ == zero_pad(decimal_chars(x as nat), width as nat),
{
    let n = decimal_len(x);
    let mut s = String::new();
    let mut k: u64 = n;
    while k < width
        invariant
            n <= k,
            n < width ==> k <= width,
            n >= width ==> k == n,
            n == decimal_chars(x as nat).len(),
            s@ == Seq::new((k - n) as nat, |i: int| '0'),
        decreases width - k,
    {
        proof {
            reveal_strlit("0");
        }
        s.append("0");
        k = k + 1;
        assert(s@ =~= Seq::new((k - n) as nat, |i: int| '0'));
    }
    let d = u64_to_decimal(x);
    s.append(d.as_str());
    proof {
        if n >= width {
            assert(s@ =~= decimal_chars(x as nat));
        } else {
            assert(k == width);
        }
    }
    s
}

/// An optional `-` followed by the decimal digits of the magnitude of `x`, as
/// `i64::to_string` writes them.
pub(crate) fn i64_to_decimal(x: i64) -> (s: String)
    ensures
        s@ == signed_decimal_chars(x as int),
{
    if x < 0 {
        let magnitude: u64 = (0i128 - x as i128) as u64;
        proof {
            reveal_strlit("-");
        }
        let mut s = String::from_str("-");
        let d = u64_to_decimal(magnitude);
        s.append(d.as_str());
        s
    } else {
        u64_to_decimal(x as u64)
    }
}

/// `String` holding `prefix` followed by the decimal digits of `x`.
pub fn tagged_u64(prefix: &str, x: u64) -> (s: String)
    ensures
        s@ == prefix@ + decimal_chars(x as nat),
{
    let mut s = String::from_str(prefix);
    let d = u64_to_decimal(x);
    s.append(d.as_str());
    s
}

/// `String` holding `prefix` followed by the signed decimal rendering of `x`.
pub fn tagged_i64(prefix: &str, x: i64) -> (s: String)
    ensures
        s@ == prefix@ + signed_decimal_chars(x as int),
{
    let mut s = String::from_str(prefix);
    let d = i64_to_decimal(x);
    s.append(d.as_str());
    s
}

/// Whether two strings hold the same characters, compared byte by byte.
pub fn str_eq(a: &str, b: &str) -> (r: bool)
    ensures
        r == (a@ == b@),
{
    let x = a.as_bytes();
    let y = b.as_bytes();
    proof {
        vstd::utf8::encode_utf8_decode_utf8(a@);
        vstd::utf8::encode_utf8_decode_utf8(b@);
    }
    if x.len() != y.len() {
        return false;
    }
    let mut i: usize = 0;
    while i < x.len()
        invariant
            i <= x@.len(),
            x@.len() == y@.len(),
            x@ == a.spec_bytes(),
            y@ == b.spec_bytes(),
            forall|k: int| 0 <= k < i ==> x@[k] == y@[k],
        decreases x@.len() - i,
    {
        if x[i] != y[i] {
            return false;
        }
        i = i + 1;
    }
    assert(x@ =~= y@);
    true
}


/// The lowercase hex digit of `d < 16`.
pub open spec fn hex_digit_char(d: nat) -> char {
    if d < 10 {
        (48 + d) as char
    } else {
        (87 + d) as char
    }
}

/// The last `n` lowercase hex digits of `x`, most significant first, zero-padded.
pub open spec fn hex_chars_padded(x: nat, n: nat) -> Seq<char>
    decreases n,
{
    if n == 0 {
        Seq::empty()
    } else {
        hex_chars_padded(x / 16, (n - 1) as nat).push(hex_digit_char(x % 16))
    }
}

/// The one-character string of hex digit `d`, lowercase.
fn hex_digit_str(d: u64) -> (s: &'static str)
    requires
        d < 16,
    ensures
        s@ == seq![hex_digit_char(d as nat)],
{
    match d {
        0 => {
            proof {
                reveal_strlit("0");
            }
            "0"
        },
        1 => {
            proof {
                reveal_strlit("1");
            }
            "1"
        },
        2 => {
            proof {
                reveal_strlit("2");
            }
            "2"
        },
        3 => {
            proof {
                reveal_strlit("3");
            }
            "3"
        },
        4 => {
            proof {
                reveal_strlit("4");
            }
            "4"
        },
        5 => {
            proof {
                reveal_strlit("5");
            }
            "5"
        },
        6 => {
            proof {
                reveal_strlit("6");
            }
            "6"
        },
        7 => {
            proof {
                reveal_strlit("7");
            }
            "7"
        },
        8 => {
            proof {
                reveal_strlit("8");
            }
            "8"
        },
        9 => {
            proof {
                reveal_strlit("9");
            }
            "9"
        },
        10 => {
            proof {
                reveal_strlit("a");
            }
            "a"
        },
        11 => {
            proof {
                reveal_strlit("b");
            }
            "b"
        },
        12 => {
            proof {
                reveal_strlit("c");
            }
            "c"
        },
        13 => {
            proof {
                reveal_strlit("d");
            }
            "d"
        },
        14 => {
            proof {
                reveal_strlit("e");
            }
            "e"
        },
        15 => {
            proof {
                reveal_strlit("f");
            }
            "f"
        },
        _ => {
            proof {
                reveal_strlit("f");
            }
            "f"
        },
    }
}

/// The last `n` lowercase hex digits of `x`, zero-padded.
fn hex_padded(x: u64, n: u64) -> (s: String)
    ensures
        s@ == hex_chars_padded(x as nat, n as nat),
    decreases n,
{
    if n == 0 {
        String::new()
    } else {
        let mut s = hex_padded(x / 16, n - 1);
        s.append(hex_digit_str(x % 16));
        s
    }
}

/// The 64 lowercase hex digits of `x`, zero-padded, as `format!("{:064x}", x)` writes
/// them.
pub(crate) fn u64_to_hex64(x: u64) -> (s: String)
    ensures
        s@ == hex_chars_padded(x as nat, 64),
{
    hex_padded(x, 64)
}

} // verus!
