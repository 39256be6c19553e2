//! Generic-programming pitfalls and the shapes that avoid them.
use vstd::prelude::*;
use vstd::std_specs::ops::MulSpec;
use vstd::string::StringSliceAdditionalSpecFns;
use crate::generics::basics::le_bytes_u64;
use crate::text::{decimal_chars, tagged_u64};

verus! {

/// Applies a one-shot function to its input.
pub fn transform<T, U, F: FnOnce(T) -> U>(input: T, f: F) -> (r: U)
    requires
        f.requires((input,)),
    ensures
        f.ensures((input,), r),
{
    f(input)
}

/// `"px="` followed by the decimal price.
pub fn price_tag(px: u64) -> (s: String)
    ensures
        s@ == "px="@ + decimal_chars(px as nat),
{
    tagged_u64("px=", px)
}

/// A value with a fixed wire encoding.
pub trait Encoder {
    spec fn encoded(&self) -> Seq<u8>;

    fn encode(&self) -> (r: &[u8])
        ensures
            r@ == self.encoded(),
    ;
}

/// A static tag encoded as its bytes.
pub struct Tag(pub &'static str);

impl Encoder for Tag {
    open spec fn encoded(&self) -> Seq<u8> {
        self.0.spec_bytes()
    }

    fn encode(&self) -> (r: &[u8]) {
        self.0.as_bytes()
    }
}

/// A trading signal source.
pub trait Strategy {
    spec fn spec_signal(&self) -> i32;

    fn signal(&self) -> (r: i32)
        ensures
            r == self.spec_signal(),
    ;
}

/// Always signals a buy.
pub struct Scalper;

impl Strategy for Scalper {
    open spec fn spec_signal(&self) -> i32 {
        1
    }

    fn signal(&self) -> (r: i32) {
        1
    }
}

/// Reads the signal through dynamic dispatch.
pub fn run_dyn(s: &dyn Strategy) -> (r: i32)
    ensures
        r == s.spec_signal(),
{
    s.signal()
}

/// Reads the signal through static dispatch.
pub fn run_static<S: Strategy>(s: &S) -> (r: i32)
    ensures
        r == s.spec_signal(),
{
    s.signal()
}

/// A parser that borrows its output from the input buffer.
pub trait Parser<'a> {
    type Out;

    spec fn parse_rel(buf: Seq<u8>, out: Option<Self::Out>) -> bool;

    fn parse(buf: &'a [u8]) -> (r: Option<Self::Out>)
        ensures
            Self::parse_rel(buf@, r),
    ;
}

/// Views a buffer as UTF-8 text.
pub struct LineParser;

/// `std::str::from_utf8`: succeeds exactly on valid UTF-8, and then the text's bytes are the input.
#[verifier::external_body]
pub(crate) fn utf8_view(buf: &[u8]) -> (r: Option<&str>)
    ensures
        r matches Some(s) ==> s.spec_bytes() == buf@,
        r is None ==> forall|cs: Seq<char>| vstd::utf8::encode_utf8(cs) != buf@,
{
    std::str::from_utf8(buf).ok()
}

impl<'a> Parser<'a> for LineParser {
    type Out = &'a str;

    open spec fn parse_rel(buf: Seq<u8>, out: Option<&'a str>) -> bool {
        &&& out matches Some(s) ==> s.spec_bytes() == buf
        &&& out is None ==> forall|cs: Seq<char>| vstd::utf8::encode_utf8(cs) != buf
    }

    fn parse(buf: &'a [u8]) -> (r: Option<&'a str>) {
        utf8_view(buf)
    }
}

/// The square of `x`, through its `Mul` impl.
pub fn double<T: Copy + core::ops::Mul<Output = T>>(x: T) -> (r: T)
    requires
        x.mul_req(x),
    ensures
        T::obeys_mul_spec() ==> r == x.mul_spec(x),
{
    x * x
}

/// A buffer whose capacity is chosen at run time.
pub struct RuntimeBuf<T> {
    data: Vec<T>,
    cap: usize,
}

impl<T> RuntimeBuf<T> {
    pub closed spec fn cap(&self) -> usize {
        self.cap
    }

    pub fn with_capacity(cap: usize) -> (r: Self)
        ensures
            r.cap() == cap,
    {
        RuntimeBuf { data: Vec::with_capacity(cap), cap }
    }

    pub fn capacity(&self) -> (r: usize)
        ensures
            r == self.cap(),
    {
        self.cap
    }
}

/// A locally defined identifier.
pub struct LocalId(pub u64);

impl LocalId {
    /// The display form `id:<n>`.
    pub fn display(&self) -> (s: String)
        ensures
            s@ == "id:"@ + decimal_chars(self.0 as nat),
    {
        tagged_u64("id:", self.0)
    }
}

/// The eight little-endian bytes of `v`.
pub fn serialize_u64(v: u64) -> (r: [u8; 8])
    ensures
        r@ == le_bytes_u64(v),
{
    let b0 = (v % 256) as u8;
    let b1 = (v / 256 % 256) as u8;
    let b2 = (v / 65536 % 256) as u8;
    let b3 = (v / 16777216 % 256) as u8;
    let b4 = (v / 4294967296 % 256) as u8;
    let b5 = (v / 1099511627776 % 256) as u8;
    let b6 = (v / 281474976710656 % 256) as u8;
    let b7 = (v / 72057594037927936 % 256) as u8;
    let r = [b0, b1, b2, b3, b4, b5, b6, b7];
    proof {
        reveal_with_fuel(crate::generics::basics::pow256, 9);
        assert(r@ =~= le_bytes_u64(v));
    }
    r
}

/// Reading back the eight little-endian bytes of `v` gives `v`.
pub proof fn lemma_le_bytes_u64_roundtrip(v: u64)
    ensures
        crate::bytes::le_value(le_bytes_u64(v)) == v,
{
    let b = le_bytes_u64(v);
    reveal_with_fuel(crate::generics::basics::pow256, 9);
    reveal_with_fuel(crate::bytes::le_value, 9);
    assert(b.drop_first() =~= seq![b[1], b[2], b[3], b[4], b[5], b[6], b[7]]);
    assert(b.drop_first().drop_first() =~= seq![b[2], b[3], b[4], b[5], b[6], b[7]]);
    assert(b.drop_first().drop_first().drop_first() =~= seq![b[3], b[4], b[5], b[6], b[7]]);
    assert(b.drop_first().drop_first().drop_first().drop_first() =~= seq![b[4], b[5], b[6], b[7]]);
    assert(b.drop_first().drop_first().drop_first().drop_first().drop_first() =~= seq![b[5], b[6], b[7]]);
    assert(b.drop_first().drop_first().drop_first().drop_first().drop_first().drop_first() =~= seq![b[6], b[7]]);
    assert(b.drop_first().drop_first().drop_first().drop_first().drop_first().drop_first().drop_first() =~= seq![b[7]]);
    assert(seq![b[7]].drop_first() =~= Seq::<u8>::empty());
    assert((v % 256) + 256 * ((v / 256) % 256 + 256 * ((v / 65536) % 256 + 256 * ((v / 16777216) % 256 + 256 * ((v / 4294967296) % 256
        + 256 * ((v / 1099511627776) % 256 + 256 * ((v / 281474976710656) % 256 + 256 * ((v / 72057594037927936) % 256))))))) == v)
        by (bit_vector);
}

/// The four little-endian bytes of `v`.
pub open spec fn le_bytes_u32(v: u32) -> Seq<u8> {
    seq![(v % 256) as u8, (v / 256 % 256) as u8, (v / 65536 % 256) as u8, (v / 16777216 % 256) as u8]
}

pub fn serialize_u32(v: u32) -> (r: [u8; 4])
    ensures
        r@ == le_bytes_u32(v),
{
    let r = [(v % 256) as u8, (v / 256 % 256) as u8, (v / 65536 % 256) as u8, (v / 16777216 % 256) as u8];
    assert(r@ =~= le_bytes_u32(v));
    r
}

/// A scalar routed through the shared cold serialisation path.
pub enum Scalar {
    U32(u32),
    U64(u64),
}

pub fn serialize_cold(s: Scalar) -> (r: Vec<u8>)
    ensures
        r@ == (match s {
            Scalar::U32(v) => le_bytes_u32(v),
            Scalar::U64(v) => le_bytes_u64(v),
        }),
{
    match s {
        Scalar::U32(v) => {
            let a = serialize_u32(v);
            let r = vec![a[0], a[1], a[2], a[3]];
            assert(r@ =~= a@);
            r
        },
        Scalar::U64(v) => {
            let a = serialize_u64(v);
            let r = vec![a[0], a[1], a[2], a[3], a[4], a[5], a[6], a[7]];
            assert(r@ =~= a@);
            r
        },
    }
}

} // verus!
