//! Web3-side generics: ABI words, typed transaction envelopes, Merkle proof checking,
//! chain-typed RPC clients, composable mempool predicates and a table-driven interpreter.
use std::marker::PhantomData;
use vstd::prelude::*;
use vstd::std_specs::convert::FromSpecImpl;
use vstd::string::StringSliceAdditionalSpecFns;

verus! {

pub type ChainId = u64;

/// A Solidity ABI value occupying one 32-byte word.
pub trait SolType: Sized {
    /// The 32-byte word this value encodes to.
    spec fn abi(&self) -> Seq<u8>;

    /// How a byte buffer relates to what `decode` returns for it.
    spec fn decode_rel(bytes: Seq<u8>, out: Option<Self>) -> bool;

    fn encode(&self) -> (r: [u8; 32])
        ensures
            r@ == self.abi(),
    ;

    fn decode(bytes: &[u8]) -> (r: Option<Self>)
        ensures
            Self::decode_rel(bytes@, r),
    ;
}

/// Big-endian value of eight bytes, most significant first.
pub open spec fn be_u64(b: Seq<u8>) -> u64 {
    ((b[0] as u64) << 56u64) | ((b[1] as u64) << 48u64) | ((b[2] as u64) << 40u64) | ((b[3] as u64) << 32u64)
        | ((b[4] as u64) << 24u64) | ((b[5] as u64) << 16u64) | ((b[6] as u64) << 8u64) | (b[7] as u64)
}

/// The eight big-endian bytes of `v`.
pub open spec fn be_bytes_u64(v: u64) -> Seq<u8> {
    seq![(v >> 56u64) as u8, (v >> 48u64) as u8, (v >> 40u64) as u8, (v >> 32u64) as u8,
        (v >> 24u64) as u8, (v >> 16u64) as u8, (v >> 8u64) as u8, v as u8]
}

/// Reading back the big-endian bytes of a word gives the word.
pub proof fn lemma_be_u64_roundtrip(v: u64)
    ensures
        be_u64(be_bytes_u64(v)) == v,
{
    let b = be_bytes_u64(v);
    let (b0, b1, b2, b3, b4, b5, b6, b7) = (b[0], b[1], b[2], b[3], b[4], b[5], b[6], b[7]);
    assert(b0 == (v >> 56u64) as u8 && b1 == (v >> 48u64) as u8 && b2 == (v >> 40u64) as u8
        && b3 == (v >> 32u64) as u8 && b4 == (v >> 24u64) as u8 && b5 == (v >> 16u64) as u8
        && b6 == (v >> 8u64) as u8 && b7 == v as u8);
    assert(((b0 as u64) << 56u64) | ((b1 as u64) << 48u64) | ((b2 as u64) << 40u64) | ((b3 as u64) << 32u64)
        | ((b4 as u64) << 24u64) | ((b5 as u64) << 16u64) | ((b6 as u64) << 8u64) | (b7 as u64) == v)
        by (bit_vector)
        requires
            b0 == (v >> 56u64) as u8 && b1 == (v >> 48u64) as u8 && b2 == (v >> 40u64) as u8
                && b3 == (v >> 32u64) as u8 && b4 == (v >> 24u64) as u8 && b5 == (v >> 16u64) as u8
                && b6 == (v >> 8u64) as u8 && b7 == v as u8;
}

/// A 256-bit unsigned word, big-endian.
#[derive(Debug, Clone, PartialEq, Eq)]
pub struct U256(pub [u8; 32]);

impl U256 {
    pub open spec fn view(&self) -> Seq<u8> {
        self.0@
    }

    /// The word whose low eight bytes are `v`, big-endian, and whose high bytes are zero.
    pub fn from_u64(v: u64) -> (r: Self)
        ensures
            r@ == Seq::new(24, |i: int| 0u8) + be_bytes_u64(v),
    {
        let r = U256([0u8, 0u8, 0u8, 0u8, 0u8, 0u8, 0u8, 0u8, 0u8, 0u8, 0u8, 0u8, 0u8, 0u8, 0u8, 0u8, 0u8, 0u8, 0u8, 0u8, 0u8, 0u8, 0u8, 0u8, (v >> 56u64) as u8, (v >> 48u64) as u8, (v >> 40u64) as u8, (v >> 32u64) as u8,
            (v >> 24u64) as u8, (v >> 16u64) as u8, (v >> 8u64) as u8, v as u8]);
        assert(r@ =~= Seq::new(24, |i: int| 0u8) + be_bytes_u64(v));
        r
    }

    /// The low eight bytes, read big-endian.
    pub fn to_u64(&self) -> (r: u64)
        ensures
            r == be_u64(self@.subrange(24, 32)),
    {
        let b = &self.0;
        ((b[24] as u64) << 56u64) | ((b[25] as u64) << 48u64) | ((b[26] as u64) << 40u64) | ((b[27] as u64) << 32u64)
            | ((b[28] as u64) << 24u64) | ((b[29] as u64) << 16u64) | ((b[30] as u64) << 8u64) | (b[31] as u64)
    }
}

/// A word built from a `u64` reads back as that `u64`.
pub proof fn lemma_u256_u64_roundtrip(v: u64, w: U256)
    requires
        w@ == Seq::new(24, |i: int| 0u8) + be_bytes_u64(v),
    ensures
        be_u64(w@.subrange(24, 32)) == v,
{
    assert(w@.subrange(24, 32) =~= be_bytes_u64(v));
    lemma_be_u64_roundtrip(v);
}

impl SolType for U256 {
    open spec fn abi(&self) -> Seq<u8> {
        self.0@
    }

    open spec fn decode_rel(bytes: Seq<u8>, out: Option<U256>) -> bool {
        &&& out is Some <==> bytes.len() >= 32
        &&& out matches Some(w) ==> w.0@ == bytes.subrange(0, 32)
    }

    fn encode(&self) -> (r: [u8; 32]) {
        self.0
    }

    fn decode(bytes: &[u8]) -> (r: Option<U256>) {
        if bytes.len() < 32 {
            return None;
        }
        let w = U256([bytes[0], bytes[1], bytes[2], bytes[3], bytes[4], bytes[5], bytes[6], bytes[7], bytes[8], bytes[9], bytes[10], bytes[11], bytes[12], bytes[13], bytes[14], bytes[15], bytes[16], bytes[17], bytes[18], bytes[19], bytes[20], bytes[21], bytes[22], bytes[23], bytes[24], bytes[25], bytes[26], bytes[27], bytes[28], bytes[29], bytes[30], bytes[31]]);
        assert(w.0@ =~= bytes@.subrange(0, 32));
        Some(w)
    }
}

/// A 20-byte account address.
#[derive(Debug, Clone, PartialEq, Eq)]
pub struct Address(pub [u8; 20]);

impl Address {
    pub fn zero() -> (r: Self)
        ensures
            r.0@ == Seq::new(20, |i: int| 0u8),
    {
        let r = Address([0u8; 20]);
        assert(r.0@ =~= Seq::new(20, |i: int| 0u8));
        r
    }
}

impl SolType for Address {
    /// Left-padded with twelve zero bytes to a full word.
    open spec fn abi(&self) -> Seq<u8> {
        Seq::new(12, |i: int| 0u8) + self.0@
    }

    open spec fn decode_rel(bytes: Seq<u8>, out: Option<Address>) -> bool {
        &&& out is Some <==> bytes.len() >= 32
        &&& out matches Some(a) ==> a.0@ == bytes.subrange(12, 32)
    }

    fn encode(&self) -> (r: [u8; 32]) {
        let r = [0u8, 0u8, 0u8, 0u8, 0u8, 0u8, 0u8, 0u8, 0u8, 0u8, 0u8, 0u8, self.0[0], self.0[1], self.0[2], self.0[3], self.0[4], self.0[5], self.0[6], self.0[7], self.0[8], self.0[9], self.0[10], self.0[11], self.0[12], self.0[13], self.0[14], self.0[15], self.0[16], self.0[17], self.0[18], self.0[19]];
        assert(r@ =~= Seq::new(12, |i: int| 0u8) + self.0@);
        r
    }

    fn decode(bytes: &[u8]) -> (r: Option<Address>) {
        if bytes.len() < 32 {
            return None;
        }
        let a = Address([bytes[12], bytes[13], bytes[14], bytes[15], bytes[16], bytes[17], bytes[18], bytes[19], bytes[20], bytes[21], bytes[22], bytes[23], bytes[24], bytes[25], bytes[26], bytes[27], bytes[28], bytes[29], bytes[30], bytes[31]]);
        assert(a.0@ =~= bytes@.subrange(12, 32));
        Some(a)
    }
}

/// Decoding the encoding of a word gives the word back.
pub proof fn lemma_u256_abi_roundtrip(w: U256, out: Option<U256>)
    requires
        U256::decode_rel(w.abi(), out),
    ensures
        out == Some(w),
{
    let v = out->Some_0;
    assert(v.0@ =~= w.0@);
    assert(v.0 =~= w.0);
}

/// Decoding the encoding of an address gives the address back.
pub proof fn lemma_address_abi_roundtrip(a: Address, out: Option<Address>)
    requires
        Address::decode_rel(a.abi(), out),
    ensures
        out == Some(a),
{
    let v = out->Some_0;
    assert(a.abi().subrange(12, 32) =~= a.0@);
    assert(v.0 =~= a.0);
}

/// Calldata: the four selector bytes followed by the argument's word.
pub fn encode_call<T: SolType>(sel: [u8; 4], arg: &T) -> (r: Vec<u8>)
    ensures
        r@ == sel@ + arg.abi(),
{
    let mut out: Vec<u8> = Vec::with_capacity(36);
    out.push(sel[0]);
    out.push(sel[1]);
    out.push(sel[2]);
    out.push(sel[3]);
    let enc = arg.encode();
    let mut i: usize = 0;
    while i < 32
        invariant
            i <= 32,
            enc@.len() == 32,
            out@ == sel@ + enc@.subrange(0, i as int),
        decreases 32 - i,
    {
        out.push(enc[i]);
        i = i + 1;
        assert(out@ =~= sel@ + enc@.subrange(0, i as int));
    }
    assert(enc@.subrange(0, 32) == enc@);
    out
}

/// A transaction body of some envelope type.
pub trait TxBody {
    spec fn spec_gas_limit(&self) -> u64;

    spec fn spec_chain_id(&self) -> ChainId;

    fn gas_limit(&self) -> (r: u64)
        ensures
            r == self.spec_gas_limit(),
    ;

    fn chain_id(&self) -> (r: ChainId)
        ensures
            r == self.spec_chain_id(),
    ;
}

#[derive(Debug, Clone)]
pub struct LegacyBody {
    pub nonce: u64,
    pub gas_price: u64,
    pub gas: u64,
    pub chain_id: ChainId,
}

impl TxBody for LegacyBody {
    open spec fn spec_gas_limit(&self) -> u64 {
        self.gas
    }

    open spec fn spec_chain_id(&self) -> ChainId {
        self.chain_id
    }

    fn gas_limit(&self) -> (r: u64) {
        self.gas
    }

    fn chain_id(&self) -> (r: ChainId) {
        self.chain_id
    }
}

#[derive(Debug, Clone)]
pub struct Eip1559Body {
    pub nonce: u64,
    pub max_fee: u64,
    pub priority_fee: u64,
    pub gas: u64,
    pub chain_id: ChainId,
}

impl TxBody for Eip1559Body {
    open spec fn spec_gas_limit(&self) -> u64 {
        self.gas
    }

    open spec fn spec_chain_id(&self) -> ChainId {
        self.chain_id
    }

    fn gas_limit(&self) -> (r: u64) {
        self.gas
    }

    fn chain_id(&self) -> (r: ChainId) {
        self.chain_id
    }
}

/// A signed transaction around a body of type `B`.
pub struct TxEnvelope<B: TxBody> {
    pub body: B,
    pub signature: [u8; 65],
}

/// `a * b`, or `u64::MAX` when the product does not fit.
pub open spec fn saturating_mul_spec(a: u64, b: u64) -> u64 {
    if a * b > u64::MAX {
        u64::MAX
    } else {
        (a * b) as u64
    }
}

impl<B: TxBody> TxEnvelope<B> {
    /// Gas limit times the fee, saturating at `u64::MAX`.
    pub fn max_cost_wei(&self, fee_per_gas: u64) -> (r: u64)
        ensures
            r == saturating_mul_spec(self.body.spec_gas_limit(), fee_per_gas),
    {
        let g = self.body.gas_limit();
        match g.checked_mul(fee_per_gas) {
            Some(x) => x,
            None => u64::MAX,
        }
    }

    pub fn validate_chain(&self, expected: ChainId) -> (r: Result<(), &'static str>)
        ensures
            r is Ok <==> self.body.spec_chain_id() == expected,
    {
        if self.body.chain_id() != expected {
            Err("chain id mismatch")
        } else {
            Ok(())
        }
    }
}

/// A two-to-one node hash.
pub trait Hasher {
    spec fn hash_spec(left: Seq<u8>, right: Seq<u8>) -> Seq<u8>;

    fn hash(left: &[u8; 32], right: &[u8; 32]) -> (r: [u8; 32])
        ensures
            r@ == Self::hash_spec(left@, right@),
    ;
}

/// A stand-in node hash: the byte-wise XOR of both children.
pub struct Keccak256;

impl Hasher for Keccak256 {
    open spec fn hash_spec(left: Seq<u8>, right: Seq<u8>) -> Seq<u8> {
        Seq::new(32, |i: int| left[i] ^ right[i])
    }

    fn hash(left: &[u8; 32], right: &[u8; 32]) -> (r: [u8; 32]) {
        let mut out = [0u8; 32];
        let mut i: usize = 0;
        while i < 32
            invariant
                i <= 32,
                forall|k: int| 0 <= k < i ==> out@[k] == left@[k] ^ right@[k],
            decreases 32 - i,
        {
            out[i] = left[i] ^ right[i];
            i = i + 1;
        }
        assert(out@ =~= Seq::new(32, |i: int| left@[i] ^ right@[i]));
        out
    }
}

/// A Merkle inclusion proof of fixed depth.
pub struct MerkleProof<H, const DEPTH: usize> {
    pub siblings: [[u8; 32]; DEPTH],
    pub path_bits: u64,
    pub _h: PhantomData<H>,
}

/// Node reached after folding the first `d` levels of the proof onto `leaf`.
pub open spec fn merkle_fold<H: Hasher>(leaf: Seq<u8>, siblings: Seq<[u8; 32]>, bits: u64, d: nat) -> Seq<u8>
    decreases d,
{
    if d == 0 {
        leaf
    } else {
        let cur = merkle_fold::<H>(leaf, siblings, bits, (d - 1) as nat);
        let sib = siblings[d - 1]@;
        if (bits >> ((d - 1) as u64)) & 1u64 == 0 {
            H::hash_spec(cur, sib)
        } else {
            H::hash_spec(sib, cur)
        }
    }
}

/// The steps of a proof from the leaf up, each a sibling and whether it sits on the left
/// of the node being climbed: path bit `d` set puts sibling `d` on the left.
pub open spec fn proof_steps(siblings: Seq<[u8; 32]>, bits: u64, n: nat) -> Seq<(Seq<u8>, bool)> {
    Seq::new(n, |d: int| (siblings[d]@, (bits >> (d as u64)) & 1u64 == 1u64))
}

/// The root reached by climbing from `leaf` through `steps`: at each level the sibling is
/// hashed on the side its step gives.
pub open spec fn climb<H: Hasher>(leaf: Seq<u8>, steps: Seq<(Seq<u8>, bool)>) -> Seq<u8>
    decreases steps.len(),
{
    if steps.len() == 0 {
        leaf
    } else {
        let below = climb::<H>(leaf, steps.drop_last());
        let sib = steps.last().0;
        if steps.last().1 {
            H::hash_spec(sib, below)
        } else {
            H::hash_spec(below, sib)
        }
    }
}

/// Folding a proof onto a leaf reaches the root that climbing from the leaf builds when
/// each sibling is hashed on the side its path bit gives: on the left when the bit is set,
/// on the right when it is clear.
pub proof fn lemma_fold_is_climb<H: Hasher>(leaf: Seq<u8>, siblings: Seq<[u8; 32]>, bits: u64, n: nat)
    requires
        n <= siblings.len(),
        n <= 64,
    ensures
        merkle_fold::<H>(leaf, siblings, bits, n) == climb::<H>(leaf, proof_steps(siblings, bits, n)),
    decreases n,
{
    if n > 0 {
        lemma_fold_is_climb::<H>(leaf, siblings, bits, (n - 1) as nat);
        let steps = proof_steps(siblings, bits, n);
        assert(steps.drop_last() =~= proof_steps(siblings, bits, (n - 1) as nat));
        let sh = (n - 1) as u64;
        let x = (bits >> sh) & 1u64;
        assert(x == 0u64 || x == 1u64) by (bit_vector)
            requires
                x == (bits >> sh) & 1u64,
        ;
    }
}

/// Compares two 32-byte words.
pub fn words_equal(a: &[u8; 32], b: &[u8; 32]) -> (r: bool)
    ensures
        r == (a@ == b@),
{
    let mut i: usize = 0;
    while i < 32
        invariant
            i <= 32,
            forall|k: int| 0 <= k < i ==> a@[k] == b@[k],
        decreases 32 - i,
    {
        if a[i] != b[i] {
            return false;
        }
        i = i + 1;
    }
    assert(a@ =~= b@);
    true
}

impl<H: Hasher, const DEPTH: usize> MerkleProof<H, DEPTH> {
    /// Folds the proof onto `leaf` (bit `d` set: the sibling is on the left) and compares with `root`.
    pub fn verify(&self, leaf: [u8; 32], root: [u8; 32]) -> (r: bool)
        requires
            DEPTH <= 64,
        ensures
            r == (merkle_fold::<H>(leaf@, self.siblings@, self.path_bits, DEPTH as nat) == root@),
            r == (climb::<H>(leaf@, proof_steps(self.siblings@, self.path_bits, DEPTH as nat)) == root@),
    {
        proof {
            lemma_fold_is_climb::<H>(leaf@, self.siblings@, self.path_bits, DEPTH as nat);
        }
        let mut cur = leaf;
        let mut d: usize = 0;
        while d < DEPTH
            invariant
                d <= DEPTH <= 64,
                cur@ == merkle_fold::<H>(leaf@, self.siblings@, self.path_bits, d as nat),
            decreases DEPTH - d,
        {
            let sibling = self.siblings[d];
            if (self.path_bits >> (d as u64)) & 1u64 == 0 {
                cur = H::hash(&cur, &sibling);
            } else {
                cur = H::hash(&sibling, &cur);
            }
            d = d + 1;
        }
        words_equal(&cur, &root)
    }
}

/// A chain's identity and block-number format.
pub trait ChainSpec {
    /// The chain's id.
    spec fn chain_id_spec() -> ChainId;

    /// The chain's name.
    spec fn name_spec() -> Seq<char>;

    fn chain_id() -> (r: ChainId)
        ensures
            r == Self::chain_id_spec(),
    ;

    fn name() -> (r: &'static str)
        ensures
            r@ == Self::name_spec(),
    ;

    fn parse_block_number(hex: &str) -> (r: Option<u64>)
        ensures
            r == hex_block_number(hex.spec_bytes()),
    ;
}

/// Drops every leading `"0x"`.
pub open spec fn strip_0x(b: Seq<u8>) -> Seq<u8>
    decreases b.len(),
{
    if b.len() >= 2 && b[0] == 48 && b[1] == 120 {
        strip_0x(b.subrange(2, b.len() as int))
    } else {
        b
    }
}

/// Value of a hexadecimal digit, if `c` is one.
pub open spec fn hex_digit(c: u8) -> Option<nat> {
    if 48 <= c <= 57 {
        Some((c - 48) as nat)
    } else if 97 <= c <= 102 {
        Some((c - 87) as nat)
    } else if 65 <= c <= 70 {
        Some((c - 55) as nat)
    } else {
        None
    }
}

/// Value of a string of hexadecimal digits, if every byte is one.
pub open spec fn hex_value(b: Seq<u8>) -> Option<nat>
    decreases b.len(),
{
    if b.len() == 0 {
        Some(0)
    } else {
        match (hex_value(b.drop_last()), hex_digit(b.last())) {
            (Some(v), Some(d)) => Some(v * 16 + d),
            _ => None,
        }
    }
}

/// Block number text: leading `"0x"` prefixes stripped, then an optional `+` and at least
/// one hexadecimal digit, whose value must fit in a `u64`.
pub open spec fn hex_block_number(b: Seq<u8>) -> Option<u64> {
    let s = strip_0x(b);
    let digits = if s.len() > 0 && s[0] == 43 { s.subrange(1, s.len() as int) } else { s };
    if digits.len() == 0 {
        None
    } else {
        match hex_value(digits) {
            Some(v) => if v <= u64::MAX { Some(v as u64) } else { None },
            None => None,
        }
    }
}

proof fn lemma_hex_value_prefix(b: Seq<u8>, k: int)
    requires
        0 <= k <= b.len(),
        hex_value(b.subrange(0, k)) is None,
    ensures
        hex_value(b) is None,
    decreases b.len() - k,
{
    if k < b.len() {
        assert(b.subrange(0, k + 1).drop_last() == b.subrange(0, k));
        lemma_hex_value_prefix(b, k + 1);
    } else {
        assert(b.subrange(0, k) == b);
    }
}

proof fn lemma_hex_value_grows(b: Seq<u8>, k: int)
    requires
        0 <= k <= b.len(),
        hex_value(b) is Some,
    ensures
        hex_value(b.subrange(0, k)) is Some,
        hex_value(b.subrange(0, k))->Some_0 <= hex_value(b)->Some_0,
    decreases b.len() - k,
{
    if k < b.len() {
        lemma_hex_value_grows(b, k + 1);
        assert(b.subrange(0, k + 1).drop_last() == b.subrange(0, k));
    } else {
        assert(b.subrange(0, k) == b);
    }
}

/// Parses a block number as `hex_block_number` describes it.
pub fn parse_hex_block_number(hex: &str) -> (r: Option<u64>)
    ensures
        r == hex_block_number(hex.spec_bytes()),
{
    let b = hex.as_bytes();
    let n = b.len();
    let mut start: usize = 0;
    assert(b@.subrange(0, n as int) == b@);
    while start < n && n - start >= 2 && b[start] == 48u8 && b[start + 1] == 120u8
        invariant
            n == b@.len(),
            start <= n,
            strip_0x(b@) == strip_0x(b@.subrange(start as int, n as int)),
        decreases n - start,
    {
        proof {
            let t = b@.subrange(start as int, n as int);
            assert(t.subrange(2, t.len() as int) == b@.subrange(start + 2, n as int));
        }
        start = start + 2;
    }
    proof {
        let t = b@.subrange(start as int, n as int);
        assert(strip_0x(t) == t);
    }
    let ghost s = b@.subrange(start as int, n as int);
    assert(s == strip_0x(b@));
    if start < n && b[start] == 43u8 {
        start = start + 1;
    }
    let ghost digits = b@.subrange(start as int, n as int);
    assert(digits == (if s.len() > 0 && s[0] == 43 { s.subrange(1, s.len() as int) } else { s }));
    if start == n {
        return None;
    }
    let mut v: u64 = 0;
    let mut k: usize = start;
    assert(hex_block_number(b@) == (match hex_value(digits) {
        Some(x) => if x <= u64::MAX { Some(x as u64) } else { None },
        None => None,
    }));
    while k < n
        invariant
            n == b@.len(),
            b@ == hex.spec_bytes(),
            hex_block_number(b@) == (match hex_value(digits) {
                Some(x) => if x <= u64::MAX { Some(x as u64) } else { None },
                None => None,
            }),
            start <= k <= n,
            digits == b@.subrange(start as int, n as int),
            hex_value(b@.subrange(start as int, k as int)) == Some(v as nat),
        decreases n - k,
    {
        let c = b[k];
        let d: u64 = if c >= 48u8 && c <= 57u8 {
            (c - 48u8) as u64
        } else if c >= 97u8 && c <= 102u8 {
            (c - 87u8) as u64
        } else if c >= 65u8 && c <= 70u8 {
            (c - 55u8) as u64
        } else {
            proof {
                let p = b@.subrange(start as int, k + 1);
                assert(p.drop_last() == b@.subrange(start as int, k as int));
                assert(p == digits.subrange(0, k + 1 - start));
                assert(hex_digit(c) is None);
                assert(hex_value(p) is None);
                lemma_hex_value_prefix(digits, k + 1 - start);
                assert(hex_value(digits) is None);
            }
            return None;
        };
        proof {
            let p = b@.subrange(start as int, k + 1);
            assert(p.drop_last() == b@.subrange(start as int, k as int));
        }
        if v > (u64::MAX - d) / 16 {
            proof {
                let p = b@.subrange(start as int, k + 1);
                assert(p == digits.subrange(0, k + 1 - start));
                assert(hex_digit(c) == Some(d as nat));
                assert(v * 16 + d > u64::MAX);
                assert(hex_value(p) == Some((v * 16 + d) as nat));
                if hex_value(digits) is Some {
                    lemma_hex_value_grows(digits, k + 1 - start);
                }
                assert(hex_value(digits) is None || hex_value(digits)->Some_0 > u64::MAX);
            }
            return None;
        }
        v = v * 16 + d;
        k = k + 1;
    }
    assert(b@.subrange(start as int, k as int) == digits);
    Some(v)
}

/// Ethereum mainnet.
pub struct Ethereum;

/// Arbitrum One.
pub struct Arbitrum;

impl ChainSpec for Ethereum {
    open spec fn chain_id_spec() -> ChainId {
        1
    }

    open spec fn name_spec() -> Seq<char> {
        "ethereum"@
    }

    fn chain_id() -> ChainId {
        1
    }

    fn name() -> &'static str {
        "ethereum"
    }

    fn parse_block_number(hex: &str) -> (r: Option<u64>) {
        parse_hex_block_number(hex)
    }
}

impl ChainSpec for Arbitrum {
    open spec fn chain_id_spec() -> ChainId {
        42_161
    }

    open spec fn name_spec() -> Seq<char> {
        "arbitrum"@
    }

    fn chain_id() -> ChainId {
        42_161
    }

    fn name() -> &'static str {
        "arbitrum"
    }

    fn parse_block_number(hex: &str) -> (r: Option<u64>) {
        parse_hex_block_number(hex)
    }
}

/// An RPC client typed by the chain it talks to.
pub struct RpcClient<C: ChainSpec> {
    pub endpoint: String,
    _c: PhantomData<C>,
}

impl<C: ChainSpec> RpcClient<C> {
    pub closed spec fn endpoint_text(&self) -> Seq<char> {
        self.endpoint@
    }

    pub fn new(endpoint: &str) -> (r: Self)
        ensures
            r.endpoint_text() == endpoint@,
    {
        RpcClient { endpoint: endpoint.to_owned(), _c: PhantomData }
    }

    /// The name of the chain the client is typed by.
    pub fn chain_name(&self) -> (r: &'static str)
        ensures
            r@ == C::name_spec(),
    {
        C::name()
    }

    /// Parses the block number carried by a response.
    pub fn handle_block_response(&self, hex: &str) -> (r: Option<u64>)
        ensures
            r == hex_block_number(hex.spec_bytes()),
    {
        C::parse_block_number(hex)
    }
}

#[derive(Debug, Clone)]
pub struct PendingTx {
    pub to: [u8; 20],
    pub selector: [u8; 4],
    pub gas_price: u64,
}

/// A boolean rule over items of type `T`.
pub trait Predicate<T> {
    spec fn holds(&self, tx: &T) -> bool;

    fn matches(&self, tx: &T) -> (r: bool)
        ensures
            r == self.holds(tx),
    ;
}

/// Gas price at least the given floor.
pub struct MinGas(pub u64);

impl Predicate<PendingTx> for MinGas {
    open spec fn holds(&self, tx: &PendingTx) -> bool {
        tx.gas_price >= self.0
    }

    fn matches(&self, tx: &PendingTx) -> (r: bool) {
        tx.gas_price >= self.0
    }
}

/// Destination is one of the listed routers.
pub struct RouterWhitelist<const N: usize>(pub [[u8; 20]; N]);

impl<const N: usize> Predicate<PendingTx> for RouterWhitelist<N> {
    open spec fn holds(&self, tx: &PendingTx) -> bool {
        exists|i: int| 0 <= i < N && #[trigger] self.0@[i]@ == tx.to@
    }

    fn matches(&self, tx: &PendingTx) -> (r: bool) {
        let mut i: usize = 0;
        while i < N
            invariant
                i <= N,
                forall|k: int| 0 <= k < i ==> self.0@[k]@ != tx.to@,
            decreases N - i,
        {
            let mut j: usize = 0;
            let mut same = true;
            while j < 20
                invariant
                    j <= 20,
                    i < N,
                    same == (forall|k: int| 0 <= k < j ==> self.0@[i as int]@[k] == tx.to@[k]),
                decreases 20 - j,
            {
                if self.0[i][j] != tx.to[j] {
                    same = false;
                }
                j = j + 1;
            }
            if same {
                assert(self.0@[i as int]@ =~= tx.to@);
                return true;
            }
            i = i + 1;
        }
        false
    }
}

/// Calldata starts with the given selector.
pub struct SelectorIs(pub [u8; 4]);

impl Predicate<PendingTx> for SelectorIs {
    open spec fn holds(&self, tx: &PendingTx) -> bool {
        tx.selector@ == self.0@
    }

    fn matches(&self, tx: &PendingTx) -> (r: bool) {
        let r = tx.selector[0] == self.0[0] && tx.selector[1] == self.0[1] && tx.selector[2] == self.0[2]
            && tx.selector[3] == self.0[3];
        if r {
            assert(tx.selector@ =~= self.0@);
        }
        r
    }
}

/// Both rules hold.
impl<T, A: Predicate<T>, B: Predicate<T>> Predicate<T> for (A, B) {
    open spec fn holds(&self, tx: &T) -> bool {
        self.0.holds(tx) && self.1.holds(tx)
    }

    fn matches(&self, tx: &T) -> (r: bool) {
        self.0.matches(tx) && self.1.matches(tx)
    }
}

/// Admits the items that satisfy its predicate.
pub struct Filter<P> {
    predicate: P,
}

impl<P> Filter<P> {
    pub closed spec fn predicate(&self) -> P {
        self.predicate
    }

    pub fn new(predicate: P) -> (r: Self)
        ensures
            r.predicate() == predicate,
    {
        Filter { predicate }
    }

    pub fn accept<T>(&self, tx: &T) -> (r: bool) where P: Predicate<T>
        ensures
            r == self.predicate().holds(tx),
    {
        self.predicate.matches(tx)
    }
}

/// An instruction set: opcode type and the effect of each opcode on the stack.
pub trait OpTable {
    type Opcode: Copy;

    spec fn dispatch_req(op: Self::Opcode, stack: Seq<u64>) -> bool;

    spec fn dispatch_spec(op: Self::Opcode, stack: Seq<u64>) -> (bool, Seq<u64>);

    fn dispatch(op: Self::Opcode, stack: &mut Vec<u64>) -> (r: Result<(), &'static str>)
        requires
            Self::dispatch_req(op, old(stack)@),
        ensures
            r is Ok == Self::dispatch_spec(op, old(stack)@).0,
            final(stack)@ == Self::dispatch_spec(op, old(stack)@).1,
    ;
}

#[derive(Clone, Copy)]
pub enum EvmOp {
    Push,
    Add,
    Stop,
}

impl From<EvmOp> for u8 {
    fn from(o: EvmOp) -> (r: u8) {
        match o {
            EvmOp::Push => 0,
            EvmOp::Add => 1,
            EvmOp::Stop => 2,
        }
    }
}

impl FromSpecImpl<EvmOp> for u8 {
    open spec fn obeys_from_spec() -> bool {
        true
    }

    open spec fn from_spec(o: EvmOp) -> u8 {
        match o {
            EvmOp::Push => 0,
            EvmOp::Add => 1,
            EvmOp::Stop => 2,
        }
    }
}

/// A three-opcode stack machine.
pub struct EvmIsa;

impl OpTable for EvmIsa {
    type Opcode = EvmOp;

    open spec fn dispatch_req(op: EvmOp, stack: Seq<u64>) -> bool {
        op is Add && stack.len() >= 2 ==> stack[stack.len() - 2] + stack.last() <= u64::MAX
    }

    /// `Push` pushes 1; `Add` pops two and pushes their sum (an underflow error still
    /// consumes what it popped); `Stop` halts with an error.
    open spec fn dispatch_spec(op: EvmOp, stack: Seq<u64>) -> (bool, Seq<u64>) {
        match op {
            EvmOp::Push => (true, stack.push(1)),
            EvmOp::Add => if stack.len() >= 2 {
                (true, stack.subrange(0, stack.len() - 2).push((stack[stack.len() - 2] + stack.last()) as u64))
            } else {
                (false, Seq::empty())
            },
            EvmOp::Stop => (false, stack),
        }
    }

    fn dispatch(op: EvmOp, stack: &mut Vec<u64>) -> (r: Result<(), &'static str>) {
        match op {
            EvmOp::Push => {
                stack.push(1);
                Ok(())
            },
            EvmOp::Add => {
                let ghost s0 = stack@;
                let b = match stack.pop() {
                    Some(x) => x,
                    None => return Err("stack underflow"),
                };
                let a = match stack.pop() {
                    Some(x) => x,
                    None => {
                        assert(stack@ =~= Seq::<u64>::empty());
                        return Err("stack underflow");
                    },
                };
                assert(stack@ =~= s0.subrange(0, s0.len() - 2));
                stack.push(a + b);
                Ok(())
            },
            EvmOp::Stop => Err("halt"),
        }
    }
}

/// A stack interpreter over the instruction set `Ops`.
pub struct Interpreter<Ops: OpTable> {
    stack: Vec<u64>,
    _ops: PhantomData<Ops>,
}

impl<Ops: OpTable> Interpreter<Ops> {
    pub closed spec fn stack(&self) -> Seq<u64> {
        self.stack@
    }

    pub fn new() -> (r: Self)
        ensures
            r.stack() == Seq::<u64>::empty(),
    {
        Interpreter { stack: Vec::new(), _ops: PhantomData }
    }

    pub fn step(&mut self, op: Ops::Opcode) -> (r: Result<(), &'static str>)
        requires
            Ops::dispatch_req(op, old(self).stack()),
        ensures
            r is Ok == Ops::dispatch_spec(op, old(self).stack()).0,
            final(self).stack() == Ops::dispatch_spec(op, old(self).stack()).1,
    {
        Ops::dispatch(op, &mut self.stack)
    }

    /// The top of the stack, if any.
    pub fn peek(&self) -> (r: Option<u64>)
        ensures
            r == (if self.stack().len() > 0 { Some(self.stack().last()) } else { None::<u64> }),
    {
        if self.stack.len() == 0 {
            None
        } else {
            Some(self.stack[self.stack.len() - 1])
        }
    }
}

} // verus!
