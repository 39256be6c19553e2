//! Generic design strategies: branded values, const-capacity buffers, static dispatch,
//! composable validators, codecs with associated outputs, type-level configuration,
//! runtime plugins and a shared cold serialisation path.
use std::marker::PhantomData;
use vstd::prelude::*;
use vstd::std_specs::ops::AddSpec;
use vstd::string::StringSliceAdditionalSpecFns;
use crate::bytes::{le_value, read_le};
use crate::generics::pitfalls::{le_bytes_u32, utf8_view};

verus! {

/// A value branded with a unit tag.
pub struct Tagged<T, Tag> {
    value: T,
    _tag: PhantomData<Tag>,
}

impl<T, Tag> Tagged<T, Tag> {
    pub closed spec fn view(&self) -> T {
        self.value
    }

    pub fn new(value: T) -> (r: Self)
        ensures
            r.view() == value,
    {
        Tagged { value, _tag: PhantomData }
    }

    pub fn inner(&self) -> (r: &T)
        ensures
            *r == self.view(),
    {
        &self.value
    }
}

/// Unit tag: metres.
pub struct Meters;

/// Unit tag: feet.
pub struct Feet;

/// Sum of two values carrying the same unit tag.
pub fn add_same_unit<T: Copy + core::ops::Add<Output = T>, Tag>(a: Tagged<T, Tag>, b: Tagged<T, Tag>) -> (r: Tagged<T, Tag>)
    requires
        a.view().add_req(b.view()),
    ensures
        T::obeys_add_spec() ==> r.view() == a.view().add_spec(b.view()),
{
    Tagged::new(a.value + b.value)
}

/// A buffer of at most `N` elements that refuses pushes once full.
pub struct StackBuffer<T, const N: usize> {
    data: Vec<Option<T>>,
    len: usize,
}

impl<T, const N: usize> StackBuffer<T, N> {
    pub closed spec fn wf(&self) -> bool {
        &&& self.data@.len() == N
        &&& self.len <= N
        &&& forall|i: int| 0 <= i < self.len ==> (#[trigger] self.data@[i]) is Some
    }

    /// Stored elements in insertion order.
    pub closed spec fn view(&self) -> Seq<T> {
        Seq::new(self.len as nat, |i: int| self.data@[i]->Some_0)
    }

    pub fn new() -> (r: Self)
        ensures
            r.wf(),
            r.view() == Seq::<T>::empty(),
    {
        let mut data: Vec<Option<T>> = Vec::new();
        let mut i: usize = 0;
        while i < N
            invariant
                i <= N,
                data@.len() == i,
            decreases N - i,
        {
            data.push(None);
            i = i + 1;
        }
        let r = StackBuffer { data, len: 0 };
        assert(r.view() =~= Seq::<T>::empty());
        r
    }

    /// Stores `v` when there is room; reports whether it was stored.
    pub fn push(&mut self, v: T) -> (ok: bool)
        requires
            old(self).wf(),
        ensures
            final(self).wf(),
            ok == (old(self).view().len() < N),
            ok ==> final(self).view() == old(self).view().push(v),
            !ok ==> final(self).view() == old(self).view(),
    {
        if self.len >= N {
            return false;
        }
        let ghost old_view = self.view();
        self.data.set(self.len, Some(v));
        self.len = self.len + 1;
        assert(self.view() =~= old_view.push(v));
        true
    }

    pub fn len(&self) -> (n: usize)
        requires
            self.wf(),
        ensures
            n == self.view().len(),
    {
        self.len
    }
}

/// A stateless unit of work over `u32` inputs.
pub trait Worker: Sized {
    /// Inputs the worker accepts without overflow.
    spec fn work_req(&self, n: u32) -> bool;

    /// What the worker returns for `n`.
    spec fn work_spec(&self, n: u32) -> u32;

    fn work(&mut self, n: u32) -> (r: u32)
        requires
            old(self).work_req(n),
        ensures
            r == old(self).work_spec(n),
            *final(self) == *old(self),
    ;
}

/// Doubles its input.
pub struct Double;

impl Worker for Double {
    open spec fn work_req(&self, n: u32) -> bool {
        n * 2 <= u32::MAX
    }

    open spec fn work_spec(&self, n: u32) -> u32 {
        (n * 2) as u32
    }

    fn work(&mut self, n: u32) -> (r: u32) {
        n * 2
    }
}

/// Sum of the worker's outputs over `s`.
pub open spec fn work_sum<W: Worker>(w: W, s: Seq<u32>) -> int
    decreases s.len(),
{
    if s.len() == 0 {
        0
    } else {
        work_sum(w, s.drop_last()) + w.work_spec(s.last()) as int
    }
}

/// Drives a worker over a batch of inputs.
pub struct Runner<W: Worker> {
    worker: W,
}

impl<W: Worker> Runner<W> {
    pub closed spec fn worker(&self) -> W {
        self.worker
    }

    pub fn new(worker: W) -> (r: Self)
        ensures
            r.worker() == worker,
    {
        Runner { worker }
    }

    /// Sum of the worker's results over all inputs.
    pub fn run(&mut self, inputs: &[u32]) -> (r: u32)
        requires
            forall|i: int| 0 <= i < inputs@.len() ==> old(self).worker().work_req(#[trigger] inputs@[i]),
            forall|k: int| 0 <= k <= inputs@.len() ==> work_sum(old(self).worker(), #[trigger] inputs@.subrange(0, k)) <= u32::MAX,
        ensures
            r == work_sum(old(self).worker(), inputs@),
            final(self).worker() == old(self).worker(),
    {
        let mut total: u32 = 0;
        let mut i: usize = 0;
        while i < inputs.len()
            invariant
                i <= inputs@.len(),
                self.worker == old(self).worker,
                forall|j: int| 0 <= j < inputs@.len() ==> self.worker.work_req(#[trigger] inputs@[j]),
                forall|k: int| 0 <= k <= inputs@.len() ==> work_sum(self.worker, #[trigger] inputs@.subrange(0, k)) <= u32::MAX,
                total == work_sum(self.worker, inputs@.subrange(0, i as int)),
            decreases inputs@.len() - i,
        {
            let x = inputs[i];
            let w = self.worker.work(x);
            proof {
                assert(inputs@.subrange(0, i + 1).drop_last() == inputs@.subrange(0, i as int));
                assert(work_sum(self.worker, inputs@.subrange(0, i + 1)) <= u32::MAX);
            }
            total = total + w;
            i = i + 1;
        }
        assert(inputs@.subrange(0, inputs@.len() as int) == inputs@);
        total
    }
}

/// A validation rule over contexts of type `C`.
pub trait Validate<C> {
    spec fn accepts(&self, ctx: &C) -> bool;

    fn check(&self, ctx: &C) -> (r: Result<(), &'static str>)
        ensures
            r is Ok <==> self.accepts(ctx),
    ;
}

/// Two rules in sequence; the first failure is reported.
impl<C, A: Validate<C>, B: Validate<C>> Validate<C> for (A, B) {
    open spec fn accepts(&self, ctx: &C) -> bool {
        self.0.accepts(ctx) && self.1.accepts(ctx)
    }

    fn check(&self, ctx: &C) -> (r: Result<(), &'static str>) {
        match self.0.check(ctx) {
            Err(e) => Err(e),
            Ok(()) => self.1.check(ctx),
        }
    }
}

/// Lower bound, inclusive.
pub struct Min(pub i32);

/// Upper bound, inclusive.
pub struct Max(pub i32);

impl Validate<i32> for Min {
    open spec fn accepts(&self, ctx: &i32) -> bool {
        *ctx >= self.0
    }

    fn check(&self, ctx: &i32) -> (r: Result<(), &'static str>) {
        if *ctx >= self.0 {
            Ok(())
        } else {
            Err("below min")
        }
    }
}

impl Validate<i32> for Max {
    open spec fn accepts(&self, ctx: &i32) -> bool {
        *ctx <= self.0
    }

    fn check(&self, ctx: &i32) -> (r: Result<(), &'static str>) {
        if *ctx <= self.0 {
            Ok(())
        } else {
            Err("above max")
        }
    }
}

/// A byte codec with a fixed output type.
pub trait Codec {
    type Value;

    spec fn decode_rel(bytes: Seq<u8>, out: Option<Self::Value>) -> bool;

    fn decode(bytes: &[u8]) -> (r: Option<Self::Value>)
        ensures
            Self::decode_rel(bytes@, r),
    ;
}

/// Decodes UTF-8 text into an owned string.
pub struct Utf8Codec;

impl Codec for Utf8Codec {
    type Value = String;

    open spec fn decode_rel(bytes: Seq<u8>, out: Option<String>) -> bool {
        &&& out matches Some(s) ==> vstd::utf8::encode_utf8(s@) == bytes
        &&& out is None ==> forall|cs: Seq<char>| vstd::utf8::encode_utf8(cs) != bytes
    }

    fn decode(bytes: &[u8]) -> (r: Option<String>) {
        match utf8_view(bytes) {
            Some(s) => Some(s.to_owned()),
            None => None,
        }
    }
}

/// Decodes exactly eight little-endian bytes into a `u64`.
pub struct LeU64Codec;

impl Codec for LeU64Codec {
    type Value = u64;

    open spec fn decode_rel(bytes: Seq<u8>, out: Option<u64>) -> bool {
        &&& out is Some <==> bytes.len() == 8
        &&& out matches Some(v) ==> v == le_value(bytes)
    }

    fn decode(bytes: &[u8]) -> (r: Option<u64>) {
        if bytes.len() != 8 {
            return None;
        }
        let v = read_le(bytes, 0, 8);
        assert(bytes@.subrange(0, 8) == bytes@);
        Some(v)
    }
}

/// Decodes with the codec `C`.
pub fn decode_with<C: Codec>(bytes: &[u8]) -> (r: Option<C::Value>)
    ensures
        C::decode_rel(bytes@, r),
{
    C::decode(bytes)
}

/// A deployment environment fixed at compile time.
pub trait Env {
    /// The environment's region name.
    spec fn region_spec() -> Seq<char>;

    /// The environment's timeout in milliseconds.
    spec fn timeout_spec() -> u64;

    fn region() -> (r: &'static str)
        ensures
            r@ == Self::region_spec(),
    ;

    fn timeout_ms() -> (r: u64)
        ensures
            r == Self::timeout_spec(),
    ;
}

/// Production settings.
pub struct Prod;

/// Staging settings.
pub struct Staging;

impl Env for Prod {
    open spec fn region_spec() -> Seq<char> {
        "ap-sg-1"@
    }

    open spec fn timeout_spec() -> u64 {
        500
    }

    fn region() -> (r: &'static str) {
        "ap-sg-1"
    }

    fn timeout_ms() -> (r: u64)
        ensures
            r == 500,
    {
        500
    }
}

impl Env for Staging {
    open spec fn region_spec() -> Seq<char> {
        "ap-sg-stg"@
    }

    open spec fn timeout_spec() -> u64 {
        5000
    }

    fn region() -> (r: &'static str) {
        "ap-sg-stg"
    }

    fn timeout_ms() -> (r: u64)
        ensures
            r == 5000,
    {
        5_000
    }
}

/// A client configured by its environment type.
pub struct Client<E> {
    pub _e: PhantomData<E>,
}

impl<E: Env> Client<E> {
    /// The environment's region and timeout.
    pub fn config_summary(&self) -> (r: (&'static str, u64))
        ensures
            r.0@ == E::region_spec(),
            r.1 == E::timeout_spec(),
    {
        (E::region(), E::timeout_ms())
    }
}

/// `str::to_uppercase`: Unicode upper-case mapping of a string.
pub uninterp spec fn uppercase_of(s: Seq<char>) -> Seq<char>;

/// `str::to_uppercase`, whose result depends on the input text alone.
#[verifier::external_body]
fn str_to_uppercase(s: &str) -> (r: String)
    ensures
        r@ == uppercase_of(s@),
{
    s.to_uppercase()
}

/// A named text transformation registered at run time.
pub trait Plugin {
    spec fn run_spec(&self, input: Seq<char>) -> Seq<char>;

    fn name(&self) -> &'static str;

    fn run(&self, input: &str) -> (r: String)
        ensures
            r@ == self.run_spec(input@),
    ;
}

/// Upper-cases its input.
pub struct Uppercase;

impl Plugin for Uppercase {
    open spec fn run_spec(&self, input: Seq<char>) -> Seq<char> {
        uppercase_of(input)
    }

    fn name(&self) -> &'static str {
        "uppercase"
    }

    fn run(&self, input: &str) -> (r: String) {
        str_to_uppercase(input)
    }
}

fn push_plugin<T>(v: &mut Vec<T>, x: T)
    ensures
        final(v)@ == old(v)@.push(x),
{
    v.push(x);
}

/// Plugins in registration order.
pub struct Registry {
    plugins: Vec<Box<dyn Plugin>>,
}

impl Registry {
    /// The registered plugins, in registration order.
    pub closed spec fn plugins(&self) -> Seq<Box<dyn Plugin>> {
        self.plugins@
    }

    pub fn new() -> (r: Self)
        ensures
            r.plugins() == Seq::<Box<dyn Plugin>>::empty(),
    {
        Registry { plugins: Vec::new() }
    }

    pub fn register(&mut self, p: Box<dyn Plugin>)
        ensures
            final(self).plugins() == old(self).plugins().push(p),
    {
        push_plugin(&mut self.plugins, p);
    }

    /// Runs every plugin on `input`, in registration order.
    pub fn run_all(&self, input: &str) -> (r: Vec<String>)
        ensures
            r@.len() == self.plugins().len(),
            forall|i: int| 0 <= i < r@.len() ==> (#[trigger] r@[i])@ == self.plugins()[i].run_spec(input@),
    {
        let mut out: Vec<String> = Vec::new();
        let mut i: usize = 0;
        while i < self.plugins.len()
            invariant
                i <= self.plugins@.len(),
                out@.len() == i,
                forall|k: int| 0 <= k < i ==> (#[trigger] out@[k])@ == self.plugins@[k].run_spec(input@),
            decreases self.plugins@.len() - i,
        {
            let s = self.plugins[i].run(input);
            out.push(s);
            i = i + 1;
        }
        out
    }
}

/// A value with a fixed serialisation appended to a buffer.
pub trait Serialize {
    spec fn bytes(&self) -> Seq<u8>;

    fn write(&self, buf: &mut Vec<u8>)
        ensures
            final(buf)@ == old(buf)@ + self.bytes(),
    ;
}

/// A 32-bit signed integer written as four little-endian bytes.
pub struct I32(pub i32);

/// Two's-complement little-endian bytes of an `i32`.
pub open spec fn le_bytes_i32(v: i32) -> Seq<u8> {
    le_bytes_u32(v as u32)
}

fn append_i32(buf: &mut Vec<u8>, v: i32)
    ensures
        final(buf)@ == old(buf)@ + le_bytes_i32(v),
{
    let u = v as u32;
    let ghost old_buf = buf@;
    buf.push((u % 256) as u8);
    buf.push((u / 256 % 256) as u8);
    buf.push((u / 65536 % 256) as u8);
    buf.push((u / 16777216 % 256) as u8);
    assert(buf@ =~= old_buf + le_bytes_i32(v));
}

impl Serialize for I32 {
    open spec fn bytes(&self) -> Seq<u8> {
        le_bytes_i32(self.0)
    }

    fn write(&self, buf: &mut Vec<u8>) {
        append_i32(buf, self.0);
    }
}

/// Serialises through a statically dispatched impl.
pub fn write_one<S: Serialize>(s: &S, buf: &mut Vec<u8>)
    ensures
        final(buf)@ == old(buf)@ + s.bytes(),
{
    s.write(buf);
}

/// A scalar on the shared cold path.
pub enum DynScalar {
    I32(i32),
    Str(String),
}

impl DynScalar {
    pub open spec fn bytes(&self) -> Seq<u8> {
        match self {
            DynScalar::I32(v) => le_bytes_i32(*v),
            DynScalar::Str(s) => vstd::utf8::encode_utf8(s@),
        }
    }

    pub fn write(&self, buf: &mut Vec<u8>)
        ensures
            final(buf)@ == old(buf)@ + self.bytes(),
    {
        match self {
            DynScalar::I32(v) => append_i32(buf, *v),
            DynScalar::Str(s) => {
                let b = s.as_str().as_bytes();
                let ghost old_buf = buf@;
                let mut i: usize = 0;
                while i < b.len()
                    invariant
                        i <= b@.len(),
                        buf@ == old_buf + b@.subrange(0, i as int),
                    decreases b@.len() - i,
                {
                    buf.push(b[i]);
                    i = i + 1;
                    assert(buf@ =~= old_buf + b@.subrange(0, i as int));
                }
                assert(b@.subrange(0, b@.len() as int) == b@);
            },
        }
    }
}

} // verus!
