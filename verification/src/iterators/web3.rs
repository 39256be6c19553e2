//! Blockchain iterator patterns as verified loops: a Merkle root and proof over a
//! teaching hash, an ERC-20 transfer scanner, a sandwich simulation on a constant-product
//! pool, block packing by gas price, a merge of chain heads by time and a Bloom filter.
use vstd::prelude::*;
use std::collections::hash_map::DefaultHasher;
use std::hash::{Hash, Hasher};
use vstd::std_specs::hash::DefaultHasherAdditionalSpecFns;
use crate::bytes::{pow256, be_value};

verus! {

pub type Address = [u8; 20];

pub type B256 = [u8; 32];

pub type U256 = u128;

/// The writes that hashing a `usize` makes into a hasher. They depend on the target's
/// word size and byte order, so the name stands for one build of the library: two
/// targets may hash the same value to different bytes.
pub uninterp spec fn usize_hash_writes(i: usize) -> Seq<Seq<u8>>;

/// The writes that hashing a byte slice makes into a hasher. They include the slice's
/// length as a `usize`, so they depend on the target's word size and byte order, and the
/// name stands for one build of the library.
pub uninterp spec fn slice_hash_writes(b: Seq<u8>) -> Seq<Seq<u8>>;

/// The writes that hashing a 32-byte array makes into a hasher. What `Hash` writes for an
/// array may depend on the target and the standard library, so the name stands for one
/// build of the library.
pub uninterp spec fn array32_hash_writes(b: Seq<u8>) -> Seq<Seq<u8>>;

/// Feeds a `usize` to a hasher with its `Hash` impl: the writes it makes are named.
#[verifier::external_body]
fn hash_usize(h: &mut DefaultHasher, i: usize)
    ensures
        final(h)@ == old(h)@ + usize_hash_writes(i),
{
    i.hash(h);
}

/// Feeds a byte slice to a hasher with its `Hash` impl: the writes it makes are named.
#[verifier::external_body]
fn hash_slice(h: &mut DefaultHasher, b: &[u8])
    ensures
        final(h)@ == old(h)@ + slice_hash_writes(b@),
{
    b.hash(h);
}

/// Feeds a 32-byte array to a hasher with its `Hash` impl: the writes it makes are named.
#[verifier::external_body]
fn hash_array32(h: &mut DefaultHasher, b: &[u8; 32])
    ensures
        final(h)@ == old(h)@ + array32_hash_writes(b@),
{
    b.hash(h);
}

/// The hash of chunk `i` of a message.
pub open spec fn chunk_hash(i: usize, chunk: Seq<u8>) -> u64 {
    DefaultHasher::spec_finish(usize_hash_writes(i) + slice_hash_writes(chunk))
}

/// Byte `j` of `v`, little-endian.
pub open spec fn le_byte(v: u64, j: int) -> u8 {
    ((v as int / pow256(j)) % 256) as u8
}

/// The number of 32-byte chunks of a message, the last possibly short.
pub open spec fn chunk_count(len: nat) -> nat {
    if len == 0 { 0 } else { ((len - 1) / 32 + 1) as nat }
}

/// Chunk `i` of a message.
pub open spec fn chunk_of(b: Seq<u8>, i: nat) -> Seq<u8> {
    b.subrange(32 * i as int, if 32 * i + 32 <= b.len() { 32 * i + 32 as int } else { b.len() as int })
}

/// The 32 bytes after folding the first `n` chunks: the 8 little-endian bytes of each
/// chunk's hash are xored in at offset `8 * i`, wrapping around.
pub open spec fn fold_chunks(b: Seq<u8>, n: nat) -> Seq<u8>
    decreases n,
{
    if n == 0 {
        Seq::new(32, |k: int| 0u8)
    } else {
        let prev = fold_chunks(b, (n - 1) as nat);
        let i = (n - 1) as nat;
        let v = chunk_hash(i as usize, chunk_of(b, i));
        Seq::new(32, |k: int| prev[k] ^ xor_in(v, i, k))
    }
}

/// What chunk `i`'s hash `v` xors into byte `k`.
pub open spec fn xor_in(v: u64, i: nat, k: int) -> u8 {
    let j = (k - (8 * i) % 32) % 32;
    if 0 <= j < 8 { le_byte(v, j) } else { 0u8 }
}

/// The teaching hash of a message: the folded chunk hashes, with their own hash written
/// over the first 8 bytes.
pub open spec fn keccak_like_spec(b: Seq<u8>) -> Seq<u8> {
    let folded = fold_chunks(b, chunk_count(b.len()));
    let f = DefaultHasher::spec_finish(array32_hash_writes(folded));
    Seq::new(32, |k: int| if k < 8 { le_byte(f, k) } else { folded[k] })
}

/// The little-endian bytes of a word.
fn le_bytes(v: u64) -> (r: [u8; 8])
    ensures
        forall|j: int| 0 <= j < 8 ==> #[trigger] r@[j] == le_byte(v, j),
{
    let mut out = [0u8; 8];
    let mut x = v;
    let mut j: usize = 0;
    while j < 8
        invariant
            j <= 8,
            out@.len() == 8,
            x as int == v as int / pow256(j as int),
            forall|m: int| 0 <= m < j ==> #[trigger] out@[m] == le_byte(v, m),
        decreases 8 - j,
    {
        out[j] = (x % 256) as u8;
        proof {
            crate::bytes::lemma_pow256_pos(j as int);
            assert(pow256(j + 1) == 256 * pow256(j as int));
            vstd::arithmetic::div_mod::lemma_div_denominator(v as int, pow256(j as int), 256);
            assert(pow256(j as int) * 256 == 256 * pow256(j as int)) by (nonlinear_arith);
        }
        x = x / 256;
        j = j + 1;
    }
    out
}

/// The teaching hash used for leaves and tree nodes.
pub fn keccak_like(bytes: &[u8]) -> (r: B256)
    ensures
        r@ == keccak_like_spec(bytes@),
{
    let mut out = [0u8; 32];
    let n = if bytes.len() == 0 { 0 } else { (bytes.len() - 1) / 32 + 1 };
    let mut i: usize = 0;
    assert(out@ =~= fold_chunks(bytes@, 0));
    while i < n
        invariant
            i <= n,
            n == chunk_count(bytes@.len()),
            bytes@.len() == bytes.len(),
            out@ == fold_chunks(bytes@, i as nat),
        decreases n - i,
    {
        assert(32 * i < bytes@.len()) by (nonlinear_arith)
            requires
                i < n,
                bytes@.len() > 0,
                n == (bytes@.len() - 1) / 32 + 1,
        ;
        let start = 32 * i;
        let end = if bytes.len() - start >= 32 { start + 32 } else { bytes.len() };
        let chunk = vstd::slice::slice_subrange(bytes, start, end);
        let mut h = DefaultHasher::new();
        hash_usize(&mut h, i);
        hash_slice(&mut h, chunk);
        let v = h.finish();
        assert(h@ =~= usize_hash_writes(i) + slice_hash_writes(chunk_of(bytes@, i as nat)));
        let vb = le_bytes(v);
        let ghost prev = out@;
        let off = (8 * i) % 32;
        let mut k: usize = 0;
        while k < 32
            invariant
                k <= 32,
                out@.len() == 32,
                prev.len() == 32,
                off == (8 * i) % 32,
                forall|j: int| 0 <= j < 8 ==> #[trigger] vb@[j] == le_byte(v, j),
                forall|m: int| 0 <= m < k ==> #[trigger] out@[m] == prev[m] ^ xor_in(v, i as nat, m),
                forall|m: int| k <= m < 32 ==> #[trigger] out@[m] == prev[m],
            decreases 32 - k,
        {
            let j = (k + 32 - off) % 32;
            assert(j as int == (k - off) % 32);
            assert(xor_in(v, i as nat, k as int) == if j < 8 { le_byte(v, j as int) } else { 0u8 });
            if j < 8 {
                out[k] = out[k] ^ vb[j];
            } else {
                let ghost p = prev[k as int];
                assert(p ^ 0u8 == p) by (bit_vector);
            }
            k = k + 1;
        }
        assert(out@ =~= fold_chunks(bytes@, (i + 1) as nat));
        i = i + 1;
    }
    let folded = out;
    let mut h = DefaultHasher::new();
    hash_array32(&mut h, &folded);
    assert(h@ =~= array32_hash_writes(folded@));
    let f = h.finish();
    let fb = le_bytes(f);
    let mut k: usize = 0;
    while k < 8
        invariant
            k <= 8,
            out@.len() == 32,
            forall|j: int| 0 <= j < 8 ==> #[trigger] fb@[j] == le_byte(f, j),
            forall|m: int| 0 <= m < k ==> #[trigger] out@[m] == le_byte(f, m),
            forall|m: int| 8 <= m < 32 ==> #[trigger] out@[m] == folded@[m],
        decreases 8 - k,
    {
        out[k] = fb[k];
        k = k + 1;
    }
    assert(out@ =~= keccak_like_spec(bytes@));
    out
}

/// The views of a sequence of 32-byte words.
pub open spec fn words(s: Seq<B256>) -> Seq<Seq<u8>> {
    s.map_values(|a: B256| a@)
}

/// The hash of an inner node: the teaching hash of the two children side by side.
pub open spec fn node_hash(l: Seq<u8>, r: Seq<u8>) -> Seq<u8> {
    keccak_like_spec(l + r)
}

/// Node `p` of the layer above `layer`: the last node of an odd layer pairs with itself.
pub open spec fn pair_at(layer: Seq<Seq<u8>>, p: int) -> Seq<u8> {
    let l = layer[2 * p];
    let r = if 2 * p + 1 < layer.len() { layer[2 * p + 1] } else { l };
    node_hash(l, r)
}

/// The layer above `layer`.
pub open spec fn next_layer(layer: Seq<Seq<u8>>) -> Seq<Seq<u8>> {
    Seq::new(((layer.len() + 1) / 2) as nat, |p: int| pair_at(layer, p))
}

/// The root of a non-empty layer: its layers folded until one node is left.
pub open spec fn root_of(layer: Seq<Seq<u8>>) -> Seq<u8>
    decreases layer.len(),
{
    if layer.len() <= 1 {
        layer[0]
    } else {
        root_of(next_layer(layer))
    }
}

/// The Merkle root of a list of leaves; all zero bytes for no leaves.
pub open spec fn merkle_root_spec(leaves: Seq<Seq<u8>>) -> Seq<u8> {
    if leaves.len() == 0 {
        Seq::new(32, |k: int| 0u8)
    } else {
        root_of(leaves)
    }
}

/// The sibling of node `idx` in a layer: the node itself where it has none.
pub open spec fn sibling(layer: Seq<Seq<u8>>, idx: usize) -> Seq<u8> {
    if ((idx ^ 1usize) as int) < layer.len() {
        layer[(idx ^ 1usize) as int]
    } else {
        layer[idx as int]
    }
}

/// The proof for node `idx`: its sibling on each layer from the leaves up.
pub open spec fn proof_of(layer: Seq<Seq<u8>>, idx: usize) -> Seq<Seq<u8>>
    decreases layer.len(),
{
    if layer.len() <= 1 {
        Seq::empty()
    } else {
        seq![sibling(layer, idx)] + proof_of(next_layer(layer), idx / 2)
    }
}

/// On every layer of `len` nodes that has a parent, node `idx` or its sibling exists.
pub open spec fn proof_fits(len: nat, idx: usize) -> bool
    decreases len,
{
    len <= 1 || ((((idx ^ 1usize) as int) < len || (idx as int) < len) && proof_fits(
        ((len + 1) / 2) as nat,
        idx / 2,
    ))
}

/// The hash of two nodes side by side.
fn combine(l: &B256, r: &B256) -> (h: B256)
    ensures
        h@ == node_hash(l@, r@),
{
    let mut buf = [0u8; 64];
    let mut k: usize = 0;
    while k < 32
        invariant
            k <= 32,
            buf@.len() == 64,
            forall|m: int| 0 <= m < k ==> #[trigger] buf@[m] == l@[m],
        decreases 32 - k,
    {
        buf[k] = l[k];
        k = k + 1;
    }
    while k < 64
        invariant
            32 <= k <= 64,
            buf@.len() == 64,
            forall|m: int| 0 <= m < 32 ==> #[trigger] buf@[m] == l@[m],
            forall|m: int| 32 <= m < k ==> #[trigger] buf@[m] == r@[m - 32],
        decreases 64 - k,
    {
        buf[k] = r[k - 32];
        k = k + 1;
    }
    assert(buf@ =~= l@ + r@);
    keccak_like(&buf)
}

/// The layer above a non-empty layer.
fn next_layer_of(layer: &Vec<B256>) -> (r: Vec<B256>)
    requires
        layer.len() >= 1,
    ensures
        words(r@) == next_layer(words(layer@)),
        r.len() == (layer.len() + 1) / 2,
{
    let half = layer.len() / 2 + layer.len() % 2;
    let mut out: Vec<B256> = Vec::new();
    let mut p: usize = 0;
    while p < half
        invariant
            half == (layer.len() + 1) / 2,
            p <= half,
            out.len() == p,
            forall|q: int| 0 <= q < p ==> #[trigger] out@[q]@ == pair_at(words(layer@), q),
        decreases half - p,
    {
        let l = layer[2 * p];
        let r = if 2 * p + 1 < layer.len() { layer[2 * p + 1] } else { l };
        let h = combine(&l, &r);
        out.push(h);
        p = p + 1;
    }
    assert(words(out@) =~= next_layer(words(layer@)));
    out
}

/// The Merkle root of the leaves, pairing the last node of an odd layer with itself.
pub fn merkle_root(leaves: &[B256]) -> (r: B256)
    ensures
        r@ == merkle_root_spec(words(leaves@)),
{
    if leaves.len() == 0 {
        let z = [0u8; 32];
        assert(z@ =~= Seq::new(32, |k: int| 0u8));
        return z;
    }
    let mut layer: Vec<B256> = vstd::slice::slice_to_vec(leaves);
    while layer.len() > 1
        invariant
            layer.len() >= 1,
            root_of(words(layer@)) == root_of(words(leaves@)),
        decreases layer.len(),
    {
        layer = next_layer_of(&layer);
    }
    layer[0]
}

/// The root a proof leads to from a leaf at position `idx`: on each layer the node is
/// hashed with its sibling, on the left when its position is even.
pub open spec fn fold_proof(leaf: Seq<u8>, proof: Seq<Seq<u8>>, idx: usize) -> Seq<u8>
    decreases proof.len(),
{
    if proof.len() == 0 {
        leaf
    } else {
        let parent = if idx % 2 == 0 { node_hash(leaf, proof[0]) } else { node_hash(proof[0], leaf) };
        fold_proof(parent, proof.drop_first(), idx / 2)
    }
}

proof fn lemma_xor_one(idx: usize)
    ensures
        idx % 2 == 0 ==> (idx ^ 1usize) as int == idx + 1,
        idx % 2 == 1 ==> (idx ^ 1usize) as int == idx - 1,
{
    assert(idx % 2 == 0 ==> (idx ^ 1usize) == idx + 1) by (bit_vector);
    assert(idx % 2 == 1 ==> (idx ^ 1usize) == idx - 1) by (bit_vector);
}

/// The parent of node `idx` is its pair hashed with the sibling the proof records.
proof fn lemma_parent(layer: Seq<Seq<u8>>, idx: usize)
    requires
        (idx as int) < layer.len(),
        layer.len() > 1,
    ensures
        (idx / 2) < next_layer(layer).len(),
        next_layer(layer)[(idx / 2) as int] == (if idx % 2 == 0 {
            node_hash(layer[idx as int], sibling(layer, idx))
        } else {
            node_hash(sibling(layer, idx), layer[idx as int])
        }),
{
    lemma_xor_one(idx);
}

/// A Merkle proof leads from its leaf back to the root.
pub proof fn lemma_merkle_proof_verifies(leaves: Seq<Seq<u8>>, idx: usize)
    requires
        (idx as int) < leaves.len(),
    ensures
        fold_proof(leaves[idx as int], proof_of(leaves, idx), idx) == root_of(leaves),
    decreases leaves.len(),
{
    if leaves.len() > 1 {
        let next = next_layer(leaves);
        lemma_parent(leaves, idx);
        lemma_merkle_proof_verifies(next, idx / 2);
        let proof = proof_of(leaves, idx);
        assert(proof[0] == sibling(leaves, idx));
        assert(proof.drop_first() =~= proof_of(next, idx / 2));
    }
}

/// The sibling of leaf `idx` on each layer from the leaves up to the root.
pub fn merkle_proof(leaves: &[B256], idx: usize) -> (r: Vec<B256>)
    requires
        proof_fits(leaves@.len(), idx),
    ensures
        words(r@) == proof_of(words(leaves@), idx),
{
    let ghost idx0 = idx;
    let mut idx = idx;
    let mut proof: Vec<B256> = Vec::new();
    let mut layer: Vec<B256> = vstd::slice::slice_to_vec(leaves);
    while layer.len() > 1
        invariant
            proof_fits(layer@.len(), idx),
            words(proof@) + proof_of(words(layer@), idx) == proof_of(words(leaves@), idx0),
        decreases layer.len(),
    {
        let ghost wl = words(layer@);
        let ghost wp = words(proof@);
        let ghost i0 = idx;
        let sibling_idx = idx ^ 1;
        let sib = if sibling_idx < layer.len() { layer[sibling_idx] } else { layer[idx] };
        assert(sib@ == sibling(wl, idx));
        proof.push(sib);
        assert(words(proof@) =~= wp.push(sib@));
        assert(proof_of(wl, idx) == seq![sibling(wl, idx)] + proof_of(next_layer(wl), idx / 2));
        layer = next_layer_of(&layer);
        idx = idx / 2;
        assert(words(proof@) + proof_of(words(layer@), idx) =~= wp + proof_of(wl, i0));
    }
    assert(words(proof@) =~= words(proof@) + proof_of(words(layer@), idx));
    proof
}

/// `topic0` of the ERC-20 `Transfer(address,address,uint256)` event, first four bytes.
pub const TRANSFER_TOPIC0: B256 = [
    0xdd, 0xf2, 0x52, 0xad, 0, 0, 0, 0, 0, 0, 0, 0, 0, 0, 0, 0,
    0, 0, 0, 0, 0, 0, 0, 0, 0, 0, 0, 0, 0, 0, 0, 0,
];

/// An event log.
#[derive(Debug, Clone)]
pub struct Log {
    pub address: Address,
    pub topics: Vec<B256>,
    pub data: Vec<u8>,
    pub block_number: u64,
}

/// A decoded ERC-20 transfer.
#[derive(Debug)]
pub struct Transfer {
    pub token: Address,
    pub from: Address,
    pub to: Address,
    pub value: U256,
    pub block: u64,
}

/// The plain values of a transfer: token, from, to, value, block.
pub open spec fn transfer_view(t: Transfer) -> (Seq<u8>, Seq<u8>, Seq<u8>, u128, u64) {
    (t.token@, t.from@, t.to@, t.value, t.block)
}

/// The address in the low 20 bytes of a topic.
pub open spec fn topic_address(t: Seq<u8>) -> Seq<u8> {
    t.subrange(12, 32)
}

/// The transfer a log decodes to for a watched address: a `Transfer` event with three
/// topics, the watched address on one side, and at least 32 bytes of data, whose bytes
/// `16..32` are the big-endian value.
pub open spec fn decode_transfer(l: Log, watched: Seq<u8>) -> Option<(Seq<u8>, Seq<u8>, Seq<u8>, u128, u64)> {
    if l.topics@.len() == 3 && l.topics@[0]@ == TRANSFER_TOPIC0@ {
        let from = topic_address(l.topics@[1]@);
        let to = topic_address(l.topics@[2]@);
        if (from == watched || to == watched) && l.data@.len() >= 32 {
            Some((l.address@, from, to, be_value(l.data@.subrange(16, 32)) as u128, l.block_number))
        } else {
            None
        }
    } else {
        None
    }
}

/// The transfers decoded from the logs, in order.
pub open spec fn transfers_spec(logs: Seq<Log>, watched: Seq<u8>) -> Seq<(Seq<u8>, Seq<u8>, Seq<u8>, u128, u64)>
    decreases logs.len(),
{
    if logs.len() == 0 {
        Seq::empty()
    } else {
        let prev = transfers_spec(logs.drop_last(), watched);
        match decode_transfer(logs.last(), watched) {
            Some(t) => prev.push(t),
            None => prev,
        }
    }
}

fn topic_to_address(t: &B256) -> (a: Address)
    ensures
        a@ == topic_address(t@),
{
    let mut a = [0u8; 20];
    let mut k: usize = 0;
    while k < 20
        invariant
            k <= 20,
            a@.len() == 20,
            forall|m: int| 0 <= m < k ==> #[trigger] a@[m] == t@[m + 12],
        decreases 20 - k,
    {
        a[k] = t[k + 12];
        k = k + 1;
    }
    assert(a@ =~= topic_address(t@));
    a
}

/// The ERC-20 transfers among the logs that involve the watched address, in order.
pub fn transfers(logs: &[Log], watched: &Address) -> (r: Vec<Transfer>)
    ensures
        r@.map_values(|t: Transfer| transfer_view(t)) == transfers_spec(logs@, watched@),
{
    let mut out: Vec<Transfer> = Vec::new();
    let mut i: usize = 0;
    while i < logs.len()
        invariant
            i <= logs@.len(),
            out@.map_values(|t: Transfer| transfer_view(t)) == transfers_spec(logs@.subrange(0, i as int), watched@),
        decreases logs@.len() - i,
    {
        let l = &logs[i];
        let ghost prev = out@.map_values(|t: Transfer| transfer_view(t));
        assert(logs@.subrange(0, i + 1).drop_last() =~= logs@.subrange(0, i as int));
        if l.topics.len() == 3 && crate::bytes::arr_eq(&l.topics[0], &TRANSFER_TOPIC0) {
            let from = topic_to_address(&l.topics[1]);
            let to = topic_to_address(&l.topics[2]);
            let keep = crate::bytes::arr_eq(&from, watched) || crate::bytes::arr_eq(&to, watched);
            if keep && l.data.len() >= 32 {
                let v = crate::bytes::read_be_u128(l.data.as_slice(), 16);
                let t = Transfer { token: l.address, from, to, value: v, block: l.block_number };
                out.push(t);
                assert(out@.map_values(|t: Transfer| transfer_view(t)) =~= prev.push(transfer_view(t)));
            }
        }
        i = i + 1;
    }
    assert(logs@.subrange(0, logs@.len() as int) =~= logs@);
    out
}

/// A constant-product pool with a 0.3% fee on the input side.
#[derive(Debug, Clone, Copy)]
pub struct Pool {
    pub reserve_in: u128,
    pub reserve_out: u128,
}

/// What a swap of `amt` into a pool with reserves `rin`, `rout` pays out.
pub open spec fn swap_out(rin: int, rout: int, amt: int) -> int {
    (amt * 997 * rout) / (rin * 1000 + amt * 997)
}

/// A swap of `amt` into reserves `rin`, `rout` stays within `u128` at every step and
/// does not divide by zero.
pub open spec fn swap_fits(rin: int, rout: int, amt: int) -> bool {
    &&& amt * 997 <= u128::MAX
    &&& amt * 997 * rout <= u128::MAX
    &&& rin * 1000 <= u128::MAX
    &&& 0 < rin * 1000 + amt * 997 <= u128::MAX
    &&& rin + amt <= u128::MAX
}

proof fn lemma_swap_out_bound(rin: int, rout: int, amt: int)
    requires
        0 <= rin,
        0 <= rout,
        0 <= amt,
        rin * 1000 + amt * 997 > 0,
    ensures
        0 <= swap_out(rin, rout, amt) <= rout,
{
    let num = amt * 997 * rout;
    let den = rin * 1000 + amt * 997;
    assert(0 <= num) by (nonlinear_arith)
        requires
            0 <= amt,
            0 <= rout,
            num == amt * 997 * rout,
    ;
    assert(num <= den * rout) by (nonlinear_arith)
        requires
            0 <= rin,
            0 <= rout,
            0 <= amt,
            num == amt * 997 * rout,
            den == rin * 1000 + amt * 997,
    ;
    assert(num / den <= rout) by (nonlinear_arith)
        requires
            0 <= num <= den * rout,
            den > 0,
    ;
    assert(0 <= num / den) by (nonlinear_arith)
        requires
            0 <= num,
            den > 0,
    ;
}

impl Pool {
    /// Swaps `amount_in` of the input token for the output token: pays out
    /// `swap_out(..)` and moves the reserves by what went in and what came out.
    pub fn swap_in_for_out(&mut self, amount_in: u128) -> (out: u128)
        requires
            swap_fits(old(self).reserve_in as int, old(self).reserve_out as int, amount_in as int),
        ensures
            out == swap_out(old(self).reserve_in as int, old(self).reserve_out as int, amount_in as int),
            final(self).reserve_in == old(self).reserve_in + amount_in,
            final(self).reserve_out == old(self).reserve_out - out,
    {
        let fee_num = 997u128;
        let fee_den = 1000u128;
        let amt_with_fee = amount_in * fee_num;
        let num = amt_with_fee * self.reserve_out;
        let den = self.reserve_in * fee_den + amt_with_fee;
        let out = num / den;
        proof {
            lemma_swap_out_bound(self.reserve_in as int, self.reserve_out as int, amount_in as int);
        }
        self.reserve_in = self.reserve_in + amount_in;
        self.reserve_out = self.reserve_out - out;
        out
    }
}

/// The three steps of a sandwich.
#[derive(Debug, Clone, Copy)]
pub enum Action {
    Frontrun(u128),
    Victim(u128),
    Backrun,
}

/// The reserves and tokens of a sandwich run step by step: what the front-run buys, the
/// pool after the front-run and after the victim, and what selling back returns.
pub open spec fn sandwich_steps(start: Pool, frontrun: int, victim: int) -> (int, int, int, int, int, int) {
    let got = swap_out(start.reserve_in as int, start.reserve_out as int, frontrun);
    let rin1 = start.reserve_in + frontrun;
    let rout1 = start.reserve_out - got;
    let gv = swap_out(rin1, rout1, victim);
    let rin2 = rin1 + victim;
    let rout2 = rout1 - gv;
    let got_in = swap_out(rout2, rin2, got);
    (got, rin1, rout1, rin2, rout2, got_in)
}

/// Every swap of the sandwich stays within `u128`, and the profit within `i128`.
pub open spec fn sandwich_fits(start: Pool, frontrun: u128, victim: u128) -> bool {
    let (got, rin1, rout1, rin2, rout2, got_in) = sandwich_steps(start, frontrun as int, victim as int);
    &&& swap_fits(start.reserve_in as int, start.reserve_out as int, frontrun as int)
    &&& swap_fits(rin1, rout1, victim as int)
    &&& swap_fits(rout2, rin2, got)
    &&& i128::MIN <= (got_in as u128 as i128) - (frontrun as i128) <= i128::MAX
}

/// The profit of the sandwich: what selling back returns, less what the front-run spent,
/// each taken as an `i128`.
pub open spec fn sandwich_pnl(start: Pool, frontrun: u128, victim: u128) -> int {
    let (got, rin1, rout1, rin2, rout2, got_in) = sandwich_steps(start, frontrun as int, victim as int);
    (got_in as u128 as i128) - (frontrun as i128)
}

/// Runs front-run, victim swap and back-run on a copy of the pool and returns the profit.
pub fn simulate(start: Pool, frontrun: u128, victim: u128) -> (pnl: i128)
    requires
        sandwich_fits(start, frontrun, victim),
    ensures
        pnl == sandwich_pnl(start, frontrun, victim),
{
    let actions = [Action::Frontrun(frontrun), Action::Victim(victim), Action::Backrun];
    let mut pool = start;
    let mut holding: u128 = 0;
    let mut last: i128 = 0;
    let ghost st = sandwich_steps(start, frontrun as int, victim as int);
    let mut k: usize = 0;
    while k < 3
        invariant
            k <= 3,
            actions@ == seq![Action::Frontrun(frontrun), Action::Victim(victim), Action::Backrun],
            sandwich_fits(start, frontrun, victim),
            st == sandwich_steps(start, frontrun as int, victim as int),
            k == 0 ==> pool == start && holding == 0,
            k == 1 ==> pool.reserve_in == st.1 && pool.reserve_out == st.2 && holding == st.0,
            k == 2 ==> pool.reserve_in == st.3 && pool.reserve_out == st.4 && holding == st.0,
            k == 3 ==> last == sandwich_pnl(start, frontrun, victim),
        decreases 3 - k,
    {
        match actions[k] {
            Action::Frontrun(amt) => {
                let got = pool.swap_in_for_out(amt);
                holding = holding + got;
                last = 0;
            },
            Action::Victim(amt) => {
                let _ = pool.swap_in_for_out(amt);
                last = 0;
            },
            Action::Backrun => {
                let mut reverse = Pool { reserve_in: pool.reserve_out, reserve_out: pool.reserve_in };
                let got_in = reverse.swap_in_for_out(holding);
                pool.reserve_in = reverse.reserve_out;
                pool.reserve_out = reverse.reserve_in;
                last = (got_in as i128) - (frontrun as i128);
            },
        }
        k = k + 1;
    }
    last
}

/// A transaction waiting in the mempool.
#[derive(Debug, Clone, Copy, PartialEq, Eq, Structural)]
pub struct PendingTx {
    pub hash: u64,
    pub gas: u64,
    pub gas_price: u64,
}

pub const BLOCK_GAS_LIMIT: u64 = 30_000_000;

/// Highest gas price first.
pub open spec fn by_price_desc(s: Seq<PendingTx>) -> bool {
    forall|a: int, b: int| 0 <= a < b < s.len() ==> s[a].gas_price >= s[b].gas_price
}

/// The transactions taken from the front while the gas used so far, starting at `cum`,
/// stays within the block limit; the first one that would exceed it ends the block.
pub open spec fn fit_prefix(s: Seq<PendingTx>, cum: int) -> Seq<PendingTx>
    decreases s.len(),
{
    if s.len() == 0 || cum + s[0].gas > BLOCK_GAS_LIMIT {
        Seq::empty()
    } else {
        seq![s[0]] + fit_prefix(s.drop_first(), cum + s[0].gas)
    }
}

/// Packs a block: the pending transactions ordered by gas price, highest first, taken
/// until the next one would push the gas over the limit. Transactions of equal price may
/// come in any order.
pub fn pack_block(pending: Vec<PendingTx>) -> (r: Vec<PendingTx>)
    ensures
        exists|s: Seq<PendingTx>|
            s.to_multiset() == pending@.to_multiset() && by_price_desc(s) && r@ == #[trigger] fit_prefix(s, 0),
{
    let mut sorted: Vec<PendingTx> = Vec::new();
    let mut i: usize = 0;
    assert(sorted@ =~= pending@.subrange(0, 0));
    while i < pending.len()
        invariant
            i <= pending@.len(),
            sorted@.to_multiset() == pending@.subrange(0, i as int).to_multiset(),
            by_price_desc(sorted@),
        decreases pending@.len() - i,
    {
        let tx = pending[i];
        let mut pos: usize = 0;
        while pos < sorted.len() && sorted[pos].gas_price >= tx.gas_price
            invariant
                pos <= sorted@.len(),
                forall|a: int| 0 <= a < pos ==> sorted@[a].gas_price >= tx.gas_price,
            decreases sorted@.len() - pos,
        {
            pos = pos + 1;
        }
        let ghost before = sorted@;
        sorted.insert(pos, tx);
        assert(pending@.subrange(0, i + 1) =~= pending@.subrange(0, i as int).push(tx));
        assert(sorted@ == before.insert(pos as int, tx));
        proof {
            vstd::seq_lib::to_multiset_insert(before, pos as int, tx);
            vstd::seq_lib::to_multiset_build(pending@.subrange(0, i as int), tx);
        }
        assert(by_price_desc(sorted@)) by {
            assert forall|a: int, b: int| 0 <= a < b < sorted@.len() implies sorted@[a].gas_price
                >= sorted@[b].gas_price by {
                if pos < before.len() {
                    assert(before[pos as int].gas_price < tx.gas_price);
                }
            }
        }
        i = i + 1;
    }
    assert(pending@.subrange(0, pending@.len() as int) =~= pending@);
    let mut out: Vec<PendingTx> = Vec::new();
    let mut cum: u64 = 0;
    let mut k: usize = 0;
    assert(sorted@.subrange(0, sorted@.len() as int) =~= sorted@);
    assert(out@ + fit_prefix(sorted@, 0) =~= fit_prefix(sorted@, 0));
    while k < sorted.len()
        invariant_except_break
            k <= sorted@.len(),
            cum <= BLOCK_GAS_LIMIT,
            out@ + fit_prefix(sorted@.subrange(k as int, sorted@.len() as int), cum as int) == fit_prefix(sorted@, 0),
        ensures
            out@ == fit_prefix(sorted@, 0),
        decreases sorted@.len() - k,
    {
        let tx = sorted[k];
        let ghost rest = sorted@.subrange(k as int, sorted@.len() as int);
        assert(rest.drop_first() =~= sorted@.subrange(k + 1, sorted@.len() as int));
        if tx.gas > BLOCK_GAS_LIMIT - cum {
            assert(out@ + Seq::<PendingTx>::empty() =~= out@);
            break;
        }
        cum = cum + tx.gas;
        out.push(tx);
        assert(out@ + fit_prefix(sorted@.subrange(k + 1, sorted@.len() as int), cum as int) =~= out@.drop_last()
            + fit_prefix(rest, (cum - tx.gas) as int));
        k = k + 1;
    }
    proof {
        if k == sorted@.len() {
            assert(sorted@.subrange(k as int, sorted@.len() as int) =~= Seq::<PendingTx>::empty());
            assert(out@ + Seq::<PendingTx>::empty() =~= out@);
        }
    }
    out
}

/// The gas of a list of transactions.
pub open spec fn total_gas(s: Seq<PendingTx>) -> int
    decreases s.len(),
{
    if s.len() == 0 {
        0
    } else {
        s[0].gas + total_gas(s.drop_first())
    }
}

/// A packed block is a prefix of the ordered transactions and stays within the gas limit.
pub proof fn lemma_fit_prefix_within_limit(s: Seq<PendingTx>, cum: int)
    requires
        0 <= cum <= BLOCK_GAS_LIMIT,
    ensures
        cum + total_gas(fit_prefix(s, cum)) <= BLOCK_GAS_LIMIT,
        fit_prefix(s, cum).len() <= s.len(),
        fit_prefix(s, cum) == s.subrange(0, fit_prefix(s, cum).len() as int),
    decreases s.len(),
{
    if s.len() > 0 && cum + s[0].gas <= BLOCK_GAS_LIMIT {
        lemma_fit_prefix_within_limit(s.drop_first(), cum + s[0].gas);
        let rest = fit_prefix(s.drop_first(), cum + s[0].gas);
        assert((seq![s[0]] + rest).drop_first() =~= rest);
        assert(seq![s[0]] + rest =~= s.subrange(0, rest.len() as int + 1));
    } else {
        assert(fit_prefix(s, cum) =~= s.subrange(0, 0));
    }
}

/// A block header as seen by a multi-chain indexer.
#[derive(Debug, Clone, Copy)]
pub struct Head {
    pub chain_id: u64,
    pub block_number: u64,
    pub timestamp: u64,
}

/// Streams of headers merged by timestamp: each step yields the next header with the
/// smallest timestamp, from the first such stream on a tie.
pub struct KMerge {
    streams: Vec<Vec<Head>>,
    heads: Vec<usize>,
}

/// The stream among `0..k` whose next header has the smallest timestamp, the first of
/// them on a tie; `None` when all are used up.
pub open spec fn earliest_stream(s: Seq<Seq<Head>>, h: Seq<usize>, k: nat) -> Option<nat>
    decreases k,
{
    if k == 0 {
        None
    } else {
        let prev = earliest_stream(s, h, (k - 1) as nat);
        let i = (k - 1) as nat;
        if h[i as int] < s[i as int].len() {
            match prev {
                Some(j) => if s[i as int][h[i as int] as int].timestamp < s[j as int][h[j as int] as int].timestamp {
                    Some(i)
                } else {
                    Some(j)
                },
                None => Some(i),
            }
        } else {
            prev
        }
    }
}

proof fn lemma_earliest_stream_valid(s: Seq<Seq<Head>>, h: Seq<usize>, k: nat)
    requires
        k <= s.len(),
        h.len() == s.len(),
    ensures
        earliest_stream(s, h, k) matches Some(j) ==> j < k && h[j as int] < s[j as int].len(),
    decreases k,
{
    if k > 0 {
        lemma_earliest_stream_valid(s, h, (k - 1) as nat);
    }
}

/// Each stream is in timestamp order.
pub open spec fn streams_by_time(s: Seq<Seq<Head>>) -> bool {
    forall|i: int, a: int, b: int|
        0 <= i < s.len() && 0 <= a <= b < s[i].len() ==> #[trigger] s[i][a].timestamp <= #[trigger] s[i][b].timestamp
}

/// The stream picked among `0..k` has the smallest next timestamp of them, and none is
/// picked only when all of them are used up.
proof fn lemma_earliest_is_min(s: Seq<Seq<Head>>, h: Seq<usize>, k: nat)
    requires
        k <= s.len(),
        h.len() == s.len(),
    ensures
        earliest_stream(s, h, k) is None ==> forall|i: int| 0 <= i < k ==> h[i] >= s[i].len(),
        earliest_stream(s, h, k) matches Some(j) ==> forall|i: int|
            0 <= i < k && h[i] < s[i].len() ==> s[j as int][h[j as int] as int].timestamp <= #[trigger] s[i][h[i] as int].timestamp,
    decreases k,
{
    if k > 0 {
        lemma_earliest_is_min(s, h, (k - 1) as nat);
        lemma_earliest_stream_valid(s, h, (k - 1) as nat);
    }
}

/// With every stream in timestamp order, each header the merge yields is no earlier than
/// the one before it.
pub proof fn lemma_kmerge_in_time_order(s: Seq<Seq<Head>>, h: Seq<usize>)
    requires
        streams_by_time(s),
        h.len() == s.len(),
        forall|i: int| 0 <= i < h.len() ==> #[trigger] h[i] <= s[i].len() <= usize::MAX,
    ensures
        earliest_stream(s, h, s.len()) matches Some(j) ==> {
            let h2 = h.update(j as int, (h[j as int] + 1) as usize);
            earliest_stream(s, h2, s.len()) matches Some(k) ==> s[j as int][h[j as int] as int].timestamp
                <= s[k as int][h2[k as int] as int].timestamp
        },
{
    lemma_earliest_stream_valid(s, h, s.len());
    lemma_earliest_is_min(s, h, s.len());
    if let Some(j) = earliest_stream(s, h, s.len()) {
        let h2 = h.update(j as int, (h[j as int] + 1) as usize);
        lemma_earliest_stream_valid(s, h2, s.len());
        if let Some(k) = earliest_stream(s, h2, s.len()) {
            if k == j {
                assert(h2[j as int] == h[j as int] + 1);
                assert(h2[j as int] < s[j as int].len());
                let a = h[j as int] as int;
                let b = h2[j as int] as int;
                assert(0 <= a <= b < s[j as int].len());
                assert(s[j as int][a].timestamp <= s[j as int][b].timestamp);
            } else {
                assert(h2[k as int] == h[k as int]);
                assert(s[j as int][h[j as int] as int].timestamp <= s[k as int][h[k as int] as int].timestamp);
            }
        }
    }
}

impl KMerge {
    pub closed spec fn stream_views(&self) -> Seq<Seq<Head>> {
        self.streams@.map_values(|v: Vec<Head>| v@)
    }

    /// How far each stream has been read.
    pub closed spec fn read_positions(&self) -> Seq<usize> {
        self.heads@
    }

    pub closed spec fn wf(&self) -> bool {
        &&& self.heads@.len() == self.streams@.len()
        &&& forall|i: int| 0 <= i < self.heads@.len() ==> self.heads@[i] <= self.streams@[i]@.len()
    }

    pub fn new(streams: Vec<Vec<Head>>) -> (r: Self)
        ensures
            r.wf(),
            r.stream_views() == streams@.map_values(|v: Vec<Head>| v@),
            r.read_positions() == Seq::new(streams@.len(), |i: int| 0usize),
    {
        let mut heads: Vec<usize> = Vec::new();
        let mut i: usize = 0;
        while i < streams.len()
            invariant
                i <= streams@.len(),
                heads@ == Seq::new(i as nat, |j: int| 0usize),
            decreases streams@.len() - i,
        {
            heads.push(0);
            i = i + 1;
            assert(heads@ =~= Seq::new(i as nat, |j: int| 0usize));
        }
        KMerge { streams, heads }
    }

    /// The next header with the smallest timestamp, from the first such stream; `None`
    /// once every stream is used up.
    pub fn next(&mut self) -> (r: Option<Head>)
        requires
            old(self).wf(),
        ensures
            final(self).wf(),
            final(self).stream_views() == old(self).stream_views(),
            match earliest_stream(old(self).stream_views(), old(self).read_positions(), old(self).stream_views().len()) {
                None => r is None && final(self).read_positions() == old(self).read_positions(),
                Some(j) => r == Some(old(self).stream_views()[j as int][old(self).read_positions()[j as int] as int])
                    && final(self).read_positions() == old(self).read_positions().update(j as int, (old(self).read_positions()[j as int] + 1) as usize),
            },
    {
        let ghost sv = self.stream_views();
        let mut best: Option<usize> = None;
        let mut i: usize = 0;
        while i < self.streams.len()
            invariant
                i <= self.streams@.len(),
                self.wf(),
                sv == self.stream_views(),
                sv.len() == self.streams@.len(),
                match earliest_stream(sv, self.heads@, i as nat) {
                    Some(j) => best == Some(j as usize),
                    None => best is None,
                },
            decreases self.streams@.len() - i,
        {
            proof {
                lemma_earliest_stream_valid(sv, self.heads@, i as nat);
            }
            let h = self.heads[i];
            if h < self.streams[i].len() {
                match best {
                    Some(j) => {
                        if self.streams[i][h].timestamp < self.streams[j][self.heads[j]].timestamp {
                            best = Some(i);
                        }
                    },
                    None => {
                        best = Some(i);
                    },
                }
            }
            i = i + 1;
        }
        proof {
            lemma_earliest_stream_valid(sv, self.heads@, sv.len());
        }
        match best {
            Some(j) => {
                proof {
                    let jj = earliest_stream(sv, self.heads@, sv.len())->0;
                    assert(jj < sv.len());
                    assert(j as nat == jj);
                    assert(self.heads@[j as int] < sv[j as int].len());
                }
                assert(sv[j as int].len() == self.streams@[j as int]@.len());
                let v = self.streams[j][self.heads[j]];
                let h = self.heads[j];
                let lenj = self.streams[j].len();
                assert(h < lenj);
                self.heads.set(j, h + 1);
                Some(v)
            },
            None => None,
        }
    }
}

/// The odd constant that spaces the probes of one hash.
pub const GOLDEN: u64 = 0x9e3779b97f4a7c15;

/// A Bloom filter of `bits.len() * 64` bits probed `k` times per hash.
pub struct Bloom {
    bits: Vec<u64>,
    k: u32,
}

/// Probe `i` of a hash among `nbits` bits: `hash + i * GOLDEN`, wrapping at 2^64,
/// reduced modulo the bit count.
pub open spec fn probe(hash: u64, i: u32, nbits: nat) -> nat {
    ((hash as nat + (i as nat * GOLDEN as nat) % 0x1_0000_0000_0000_0000) % 0x1_0000_0000_0000_0000) % nbits
}

/// The mask of bit `b` within its word.
pub open spec fn bit_mask(b: nat) -> u64 {
    1u64 << ((b % 64) as u64)
}

/// Bit `b` of the filter is set.
pub open spec fn bit_set(bits: Seq<u64>, b: nat) -> bool {
    bits[(b / 64) as int] & bit_mask(b) != 0
}

/// Every probe of the hash hits a set bit.
pub open spec fn contains_spec(bits: Seq<u64>, k: u32, hash: u64) -> bool {
    forall|i: u32| i < k ==> #[trigger] bit_set(bits, probe(hash, i, bits.len() * 64))
}

/// The words after setting the bits of the first `n` probes of the hash.
pub open spec fn insert_upto(bits: Seq<u64>, hash: u64, n: nat) -> Seq<u64>
    decreases n,
{
    if n == 0 {
        bits
    } else {
        let b = insert_upto(bits, hash, (n - 1) as nat);
        let p = probe(hash, (n - 1) as u32, bits.len() * 64);
        b.update((p / 64) as int, b[(p / 64) as int] | bit_mask(p))
    }
}

/// The hashes kept by a run of the filter over `hs`, and the words after it: a hash is
/// kept, and inserted, when the filter does not already contain it.
pub open spec fn novel_spec(bits: Seq<u64>, k: u32, hs: Seq<u64>) -> (Seq<u64>, Seq<u64>)
    decreases hs.len(),
{
    if hs.len() == 0 {
        (Seq::empty(), bits)
    } else {
        let (kept, b) = novel_spec(bits, k, hs.drop_last());
        let h = hs.last();
        if contains_spec(b, k, h) {
            (kept, b)
        } else {
            (kept.push(h), insert_upto(b, h, k as nat))
        }
    }
}

proof fn lemma_mask_facts(x: u64, y: u64, s: u64, t: u64)
    requires
        s < 64,
        t < 64,
    ensures
        (x | (1u64 << s)) & (1u64 << s) != 0,
        y & (1u64 << t) != 0 ==> (y | (1u64 << s)) & (1u64 << t) != 0,
{
    assert((x | (1u64 << s)) & (1u64 << s) != 0) by (bit_vector)
        requires
            s < 64,
    ;
    assert(y & (1u64 << t) != 0 ==> (y | (1u64 << s)) & (1u64 << t) != 0) by (bit_vector)
        requires
            s < 64,
            t < 64,
    ;
}

/// Setting one more bit keeps every set bit set and sets that bit.
proof fn lemma_set_bit(b: Seq<u64>, p: nat, q: nat)
    requires
        p / 64 < b.len(),
        q / 64 < b.len(),
    ensures
        bit_set(b.update((p / 64) as int, b[(p / 64) as int] | bit_mask(p)), p),
        bit_set(b, q) ==> bit_set(b.update((p / 64) as int, b[(p / 64) as int] | bit_mask(p)), q),
{
    lemma_mask_facts(b[(p / 64) as int], b[(q / 64) as int], (p % 64) as u64, (q % 64) as u64);
}

proof fn lemma_insert_upto_len(bits: Seq<u64>, hash: u64, n: nat)
    requires
        bits.len() > 0,
    ensures
        insert_upto(bits, hash, n).len() == bits.len(),
    decreases n,
{
    if n > 0 {
        lemma_insert_upto_len(bits, hash, (n - 1) as nat);
        let p = probe(hash, (n - 1) as u32, bits.len() * 64);
        assert(p < bits.len() * 64);
        assert(p / 64 < bits.len()) by (nonlinear_arith)
            requires
                p < bits.len() * 64,
        ;
    }
}

/// After setting the first `n` probes of `hash`, those probes hit set bits and every bit
/// set before is still set.
proof fn lemma_insert_upto(bits: Seq<u64>, hash: u64, n: nat, q: nat)
    requires
        bits.len() > 0,
        n <= 0x1_0000_0000,
        q < bits.len() * 64,
    ensures
        forall|i: u32| i < n ==> #[trigger] bit_set(insert_upto(bits, hash, n), probe(hash, i, bits.len() * 64)),
        bit_set(bits, q) ==> bit_set(insert_upto(bits, hash, n), q),
    decreases n,
{
    if n > 0 {
        lemma_insert_upto(bits, hash, (n - 1) as nat, q);
        lemma_insert_upto_len(bits, hash, (n - 1) as nat);
        let b = insert_upto(bits, hash, (n - 1) as nat);
        let p = probe(hash, (n - 1) as u32, bits.len() * 64);
        assert(p / 64 < bits.len()) by (nonlinear_arith)
            requires
                p < bits.len() * 64,
        ;
        assert(q / 64 < bits.len()) by (nonlinear_arith)
            requires
                q < bits.len() * 64,
        ;
        lemma_set_bit(b, p, q);
        assert forall|i: u32| i < n implies #[trigger] bit_set(insert_upto(bits, hash, n), probe(hash, i, bits.len() * 64)) by {
            let pi = probe(hash, i, bits.len() * 64);
            assert(pi / 64 < bits.len()) by (nonlinear_arith)
                requires
                    pi < bits.len() * 64,
            ;
            lemma_set_bit(b, p, pi);
        }
    }
}

/// No false negatives: once a hash is inserted the filter contains it, and a hash it
/// contained before it still contains.
pub proof fn lemma_bloom_insert_contains(bits: Seq<u64>, k: u32, hash: u64, other: u64)
    requires
        bits.len() > 0,
    ensures
        contains_spec(insert_upto(bits, hash, k as nat), k, hash),
        contains_spec(bits, k, other) ==> contains_spec(insert_upto(bits, hash, k as nat), k, other),
{
    lemma_insert_upto_len(bits, hash, k as nat);
    lemma_insert_upto(bits, hash, k as nat, 0);
    assert forall|i: u32| i < k && contains_spec(bits, k, other) implies #[trigger] bit_set(
        insert_upto(bits, hash, k as nat),
        probe(other, i, bits.len() * 64),
    ) by {
        let q = probe(other, i, bits.len() * 64);
        lemma_insert_upto(bits, hash, k as nat, q);
        assert(bit_set(bits, probe(other, i, bits.len() * 64)));
    }
}

/// A run of the filter keeps each hash at most once, and leaves every kept hash in it.
pub proof fn lemma_novel_no_repeats(bits: Seq<u64>, k: u32, hs: Seq<u64>)
    requires
        bits.len() > 0,
    ensures
        novel_spec(bits, k, hs).0.no_duplicates(),
        novel_spec(bits, k, hs).1.len() == bits.len(),
        forall|j: int| 0 <= j < novel_spec(bits, k, hs).0.len() ==>
            contains_spec(novel_spec(bits, k, hs).1, k, #[trigger] novel_spec(bits, k, hs).0[j]),
    decreases hs.len(),
{
    if hs.len() > 0 {
        lemma_novel_no_repeats(bits, k, hs.drop_last());
        let (kept, b) = novel_spec(bits, k, hs.drop_last());
        let h = hs.last();
        if !contains_spec(b, k, h) {
            assert forall|j: int| 0 <= j < kept.len() implies kept[j] != h by {
                assert(contains_spec(b, k, kept[j]));
            }
            lemma_insert_upto_len(b, h, k as nat);
            assert forall|j: int| 0 <= j < kept.push(h).len() implies contains_spec(
                insert_upto(b, h, k as nat),
                k,
                #[trigger] kept.push(h)[j],
            ) by {
                lemma_bloom_insert_contains(b, k, h, kept.push(h)[j]);
                if j < kept.len() {
                    assert(contains_spec(b, k, kept[j]));
                }
            }
        }
    }
}

impl Bloom {
    pub closed spec fn words(&self) -> Seq<u64> {
        self.bits@
    }

    pub closed spec fn probes(&self) -> u32 {
        self.k
    }

    /// The bit count fits a `u64` and a `usize`.
    pub open spec fn wf(&self) -> bool {
        self.words().len() * 64 <= u64::MAX && self.words().len() * 64 <= usize::MAX
    }

    /// An empty filter of `words` 64-bit words probed `k` times per hash.
    pub fn new(words: usize, k: u32) -> (r: Self)
        requires
            words * 64 <= u64::MAX,
            words * 64 <= usize::MAX,
        ensures
            r.wf(),
            r.words() == Seq::new(words as nat, |i: int| 0u64),
            r.probes() == k,
    {
        let bits = vec![0u64; words];
        assert(bits@ =~= Seq::new(words as nat, |i: int| 0u64));
        Bloom { bits, k }
    }

    /// The word and mask of probe `i` of a hash.
    fn idx(&self, hash: u64, i: u32) -> (r: (usize, u64))
        requires
            self.wf(),
            self.words().len() > 0,
        ensures
            r.0 == probe(hash, i, self.words().len() * 64) / 64,
            r.0 < self.words().len(),
            r.1 == bit_mask(probe(hash, i, self.words().len() * 64)),
    {
        let h = hash.wrapping_add((i as u64).wrapping_mul(GOLDEN));
        assert(h as nat == (hash as nat + (i as nat * GOLDEN as nat) % 0x1_0000_0000_0000_0000) % 0x1_0000_0000_0000_0000);
        let total_bits = (self.bits.len() * 64) as u64;
        let bit = h % total_bits;
        assert(bit / 64 < self.words().len()) by (nonlinear_arith)
            requires
                bit < total_bits,
                total_bits == self.words().len() * 64,
        ;
        ((bit / 64) as usize, 1u64 << (bit % 64))
    }

    /// Whether every probe of the hash hits a set bit.
    pub fn contains(&self, hash: u64) -> (r: bool)
        requires
            self.wf(),
            self.probes() == 0 || self.words().len() > 0,
        ensures
            r == contains_spec(self.words(), self.probes(), hash),
    {
        let mut i: u32 = 0;
        while i < self.k
            invariant
                self.wf(),
                self.probes() == 0 || self.words().len() > 0,
                i <= self.k,
                forall|j: u32| j < i ==> #[trigger] bit_set(self.words(), probe(hash, j, self.words().len() * 64)),
            decreases self.k - i,
        {
            let (w, m) = self.idx(hash, i);
            if self.bits[w] & m == 0 {
                assert(!bit_set(self.words(), probe(hash, i, self.words().len() * 64)));
                return false;
            }
            i = i + 1;
        }
        true
    }

    /// Sets the bits of every probe of the hash.
    pub fn insert(&mut self, hash: u64)
        requires
            old(self).wf(),
            old(self).probes() == 0 || old(self).words().len() > 0,
        ensures
            final(self).wf(),
            final(self).probes() == old(self).probes(),
            final(self).words() == insert_upto(old(self).words(), hash, old(self).probes() as nat),
    {
        let ghost b0 = self.bits@;
        let mut i: u32 = 0;
        while i < self.k
            invariant
                i <= self.k,
                self.k == old(self).k,
                b0 == old(self).bits@,
                self.probes() == 0 || b0.len() > 0,
                self.bits@.len() == b0.len(),
                self.wf(),
                self.bits@ == insert_upto(b0, hash, i as nat),
            decreases self.k - i,
        {
            let (w, m) = self.idx(hash, i);
            let x = self.bits[w];
            self.bits.set(w, x | m);
            i = i + 1;
        }
    }
}

/// The hashes the filter has not seen, in order, inserting each as it passes.
pub fn novel_txs(hashes: &[u64], bloom: &mut Bloom) -> (r: Vec<u64>)
    requires
        old(bloom).wf(),
        old(bloom).probes() == 0 || old(bloom).words().len() > 0,
    ensures
        final(bloom).wf(),
        final(bloom).probes() == old(bloom).probes(),
        r@ == novel_spec(old(bloom).words(), old(bloom).probes(), hashes@).0,
        final(bloom).words() == novel_spec(old(bloom).words(), old(bloom).probes(), hashes@).1,
{
    let ghost b0 = bloom.words();
    let mut out: Vec<u64> = Vec::new();
    let mut i: usize = 0;
    while i < hashes.len()
        invariant
            i <= hashes@.len(),
            bloom.wf(),
            bloom.probes() == old(bloom).probes(),
            b0 == old(bloom).words(),
            bloom.probes() == 0 || bloom.words().len() > 0,
            bloom.words().len() == b0.len(),
            (out@, bloom.words()) == novel_spec(b0, bloom.probes(), hashes@.subrange(0, i as int)),
        decreases hashes@.len() - i,
    {
        let h = hashes[i];
        assert(hashes@.subrange(0, i + 1).drop_last() =~= hashes@.subrange(0, i as int));
        if !bloom.contains(h) {
            proof {
                if bloom.probes() > 0 {
                    lemma_insert_upto_len(bloom.words(), h, bloom.probes() as nat);
                }
            }
            bloom.insert(h);
            out.push(h);
        }
        i = i + 1;
    }
    assert(hashes@.subrange(0, hashes@.len() as int) =~= hashes@);
    out
}

} // verus!
