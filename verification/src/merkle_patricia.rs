//! A simplified Merkle Patricia trie over nibble keys, with a Keccak-256 root hash, and a
//! small account table in the shape of Ethereum state.
//!
//! The trie is deliberately simple: inserting into a non-empty trie makes a new branch
//! root whose first child is the old root and whose child at the key's first nibble is a
//! leaf holding the rest of the key. The most recent insert of a non-empty key is always
//! found again; older entries may be shadowed.
use vstd::prelude::*;
use sha3::Digest;
use vstd::string::StringSliceAdditionalSpecFns;
use crate::assoc::{lookup_spec, upsert_spec, lemma_upsert_lookup, lemma_first_key_index_spec};
use crate::inline_caching::strategies::{first_key_index, lemma_first_key_index};

verus! {

/// The Keccak-256 digest of a byte string.
pub uninterp spec fn keccak256_of(data: Seq<u8>) -> Seq<u8>;

/// Keccak-256 of `data`, computed by `sha3::Keccak256::digest`. The digest itself is
/// named, not stated: the result is `keccak256_of` of the input bytes.
#[verifier::external_body]
pub(crate) fn keccak256(data: &[u8]) -> (r: [u8; 32])
    ensures
        r@ == keccak256_of(data@),
{
    sha3::Keccak256::digest(data).into()
}

/// The nibbles of a byte string, high half of each byte first.
pub open spec fn nibbles_of(bytes: Seq<u8>) -> Seq<u8> {
    Seq::new(2 * bytes.len(), |i: int| if i % 2 == 0 { bytes[i / 2] / 16 } else { bytes[i / 2] % 16 })
}

/// Every entry is a nibble.
pub open spec fn all_nibbles(s: Seq<u8>) -> bool {
    forall|i: int| 0 <= i < s.len() ==> #[trigger] s[i] < 16
}

/// A key split into 4-bit values.
pub struct Nibbles(pub Vec<u8>);

impl Nibbles {
    pub open spec fn view(&self) -> Seq<u8> {
        self.0@
    }

    pub fn from_bytes(bytes: &[u8]) -> (r: Self)
        requires
            2 * bytes@.len() <= usize::MAX,
        ensures
            r@ == nibbles_of(bytes@),
            all_nibbles(r@),
    {
        let mut out: Vec<u8> = Vec::with_capacity(bytes.len() * 2);
        let mut i: usize = 0;
        while i < bytes.len()
            invariant
                i <= bytes@.len(),
                2 * bytes@.len() <= usize::MAX,
                out@.len() == 2 * i,
                forall|j: int| 0 <= j < 2 * i ==> #[trigger] out@[j] == nibbles_of(bytes@)[j],
            decreases bytes@.len() - i,
        {
            let b = bytes[i];
            let hi: u8 = b >> 4;
            let lo: u8 = b & 0x0F;
            assert(hi == b / 16 && lo == b % 16) by (bit_vector)
                requires
                    hi == b >> 4,
                    lo == b & 0x0F,
            ;
            out.push(hi);
            out.push(lo);
            i = i + 1;
        }
        let r = Nibbles(out);
        assert(r@ =~= nibbles_of(bytes@));
        r
    }

    /// The length of the longest common prefix of two nibble strings.
    pub fn common_prefix_len(&self, other: &Self) -> (n: usize)
        ensures
            n <= self@.len(),
            n <= other@.len(),
            forall|i: int| 0 <= i < n ==> #[trigger] self@[i] == other@[i],
            n < self@.len() && n < other@.len() ==> self@[n as int] != other@[n as int],
    {
        let mut n: usize = 0;
        while n < self.0.len() && n < other.0.len() && self.0[n] == other.0[n]
            invariant
                n <= self@.len(),
                n <= other@.len(),
                forall|i: int| 0 <= i < n ==> #[trigger] self@[i] == other@[i],
            decreases self@.len() - n,
        {
            n = n + 1;
        }
        n
    }

    /// The first `index` nibbles and the rest.
    pub fn split_at(&self, index: usize) -> (r: (Self, Self))
        requires
            index <= self@.len(),
        ensures
            r.0@ == self@.subrange(0, index as int),
            r.1@ == self@.subrange(index as int, self@.len() as int),
    {
        let mut left: Vec<u8> = Vec::new();
        let mut right: Vec<u8> = Vec::new();
        let mut i: usize = 0;
        while i < self.0.len()
            invariant
                i <= self@.len(),
                index <= self@.len(),
                i <= index ==> left@ == self@.subrange(0, i as int) && right@.len() == 0,
                i > index ==> left@ == self@.subrange(0, index as int) && right@ == self@.subrange(index as int, i as int),
            decreases self@.len() - i,
        {
            if i < index {
                left.push(self.0[i]);
            } else {
                right.push(self.0[i]);
            }
            i = i + 1;
        }
        (Nibbles(left), Nibbles(right))
    }
}

#[allow(inconsistent_fields)]
/// A trie node: a branch with sixteen children and an optional value, or a leaf holding
/// the rest of its key.
pub enum Node {
    Branch { children: Vec<Option<Box<Node>>>, value: Option<Vec<u8>> },
    Leaf { key: Nibbles, value: Vec<u8> },
}

/// A branch has exactly sixteen children, and so do the branches below it.
pub open spec fn node_wf(n: Node) -> bool
    decreases n,
{
    match n {
        Node::Leaf { .. } => true,
        Node::Branch { children, .. } => {
            &&& children@.len() == 16
            &&& forall|i: int|
                0 <= i < 16 ==> match #[trigger] children@[i] {
                    Some(c) => {
                        proof {
                            assert(decreases_to!(children => children[i]));
                        }
                        node_wf(*c)
                    },
                    None => true,
                }
        },
    }
}

/// The rest of `key` from `depth` on, empty past its end.
pub open spec fn key_tail(key: Seq<u8>, depth: nat) -> Seq<u8> {
    if depth <= key.len() {
        key.subrange(depth as int, key.len() as int)
    } else {
        Seq::empty()
    }
}

/// What a lookup of the nibble key `key` finds below `n`, which sits at `depth`: a leaf
/// answers when its key is the rest of `key`; a branch answers with its own value once
/// the key is used up, and otherwise descends into the child at the next nibble.
pub open spec fn node_get(n: Node, key: Seq<u8>, depth: nat) -> Option<Seq<u8>>
    decreases n,
{
    match n {
        Node::Leaf { key: k, value } => if k@ == key_tail(key, depth) {
            Some(value@)
        } else {
            None
        },
        Node::Branch { children, value } => {
            if key.len() <= depth {
                match value {
                    Some(v) => Some(v@),
                    None => None,
                }
            } else {
                let idx = key[depth as int] as int;
                if 0 <= idx < children@.len() {
                    match children@[idx] {
                        Some(c) => {
                            proof {
                                assert(decreases_to!(children => children[idx]));
                            }
                            node_get(*c, key, depth + 1)
                        },
                        None => None,
                    }
                } else {
                    None
                }
            }
        },
    }
}

/// The decimal digits of a byte, as ASCII.
pub open spec fn u8_text(b: u8) -> Seq<u8> {
    if b < 10 {
        seq![(48 + b) as u8]
    } else if b < 100 {
        seq![(48 + b / 10) as u8, (48 + b % 10) as u8]
    } else {
        seq![(48 + b / 100) as u8, (48 + (b / 10) % 10) as u8, (48 + b % 10) as u8]
    }
}

/// The items of a byte list as decimals separated by ", ".
pub open spec fn items_text(s: Seq<u8>) -> Seq<u8>
    decreases s.len(),
{
    if s.len() == 0 {
        Seq::empty()
    } else if s.len() == 1 {
        u8_text(s[0])
    } else {
        items_text(s.drop_last()) + ", ".spec_bytes() + u8_text(s.last())
    }
}

/// A byte list written as `[1, 2, 3]`.
pub open spec fn list_text(s: Seq<u8>) -> Seq<u8> {
    "[".spec_bytes() + items_text(s) + "]".spec_bytes()
}

/// A child slot of a branch: `None`, or the child inside `Some(RefCell { value: .. })`.
pub open spec fn child_text(c: Option<Box<Node>>) -> Seq<u8>
    decreases c, 0nat,
{
    match c {
        None => "None".spec_bytes(),
        Some(b) => "Some(RefCell { value: ".spec_bytes() + node_text(*b) + " })".spec_bytes(),
    }
}

/// The first `k` child slots of a branch, separated by ", ".
pub open spec fn children_text(cs: Seq<Option<Box<Node>>>, k: nat) -> Seq<u8>
    decreases cs, k,
{
    if k == 0 || k > cs.len() {
        Seq::empty()
    } else if k == 1 {
        child_text(cs[0])
    } else {
        children_text(cs, (k - 1) as nat) + ", ".spec_bytes() + child_text(cs[k - 1])
    }
}

/// The optional value of a branch: `None` or `Some([..])`.
pub open spec fn opt_list_text(v: Option<Vec<u8>>) -> Seq<u8> {
    match v {
        None => "None".spec_bytes(),
        Some(v) => "Some(".spec_bytes() + list_text(v@) + ")".spec_bytes(),
    }
}

/// The text that a node's hash is taken over: the node in Rust's `Debug` notation, a
/// leaf with its key nibbles and value bytes, a branch with its sixteen child slots,
/// each present child wrapped as `Some(RefCell { value: .. })`, and its optional value.
/// The hash is defined over this text, so the wrapping is part of the format.
pub open spec fn node_text(n: Node) -> Seq<u8>
    decreases n, 0nat,
{
    match n {
        Node::Leaf { key, value } => "Leaf { key: Nibbles(".spec_bytes() + list_text(key@)
            + "), value: ".spec_bytes() + list_text(value@) + " }".spec_bytes(),
        Node::Branch { children, value } => "Branch { children: [".spec_bytes()
            + children_text(children@, children@.len()) + "], value: ".spec_bytes()
            + opt_list_text(value) + " }".spec_bytes(),
    }
}

/// The text of the first `k` child slots holds the full text of each slot before `k`:
/// it is some text, then that slot's text, then some more.
proof fn lemma_children_text_holds(cs: Seq<Option<Box<Node>>>, k: nat, i: int) -> (r: (Seq<u8>, Seq<u8>))
    requires
        0 <= i < k <= cs.len(),
    ensures
        children_text(cs, k) == r.0 + child_text(cs[i]) + r.1,
    decreases k,
{
    if k == i + 1 {
        if k == 1 {
            let r = (Seq::<u8>::empty(), Seq::<u8>::empty());
            assert(children_text(cs, k) =~= r.0 + child_text(cs[i]) + r.1);
            r
        } else {
            let r = (children_text(cs, (k - 1) as nat) + ", ".spec_bytes(), Seq::<u8>::empty());
            assert(children_text(cs, k) =~= r.0 + child_text(cs[i]) + r.1);
            r
        }
    } else {
        let (a, b) = lemma_children_text_holds(cs, (k - 1) as nat, i);
        let r = (a, b + ", ".spec_bytes() + child_text(cs[k - 1]));
        assert(children_text(cs, k) =~= r.0 + child_text(cs[i]) + r.1);
        r
    }
}

/// The text a branch is hashed over holds the full text of every present child: some
/// text, then the child's own text, then some more. So the hash of a branch is taken over
/// the keys and values of the nodes below it, not just over which slots are occupied.
#[verifier::spinoff_prover]
#[verifier::rlimit(40)]
pub proof fn lemma_branch_text_holds_child(n: Node, i: int) -> (r: (Seq<u8>, Seq<u8>))
    requires
        n matches Node::Branch { children, .. } && 0 <= i < children@.len() && children@[i] is Some,
    ensures
        n matches Node::Branch { children, .. } && node_text(n) == r.0 + node_text(*children@[i].unwrap()) + r.1,
{
    match n {
        Node::Branch { children, value } => {
            let cs = children@;
            let (a, b) = lemma_children_text_holds(cs, cs.len(), i);
            let c = *cs[i].unwrap();
            let nt = node_text(c);
            let p1 = "Some(RefCell { value: ".spec_bytes();
            let s1 = " })".spec_bytes();
            let h = "Branch { children: [".spec_bytes();
            let t = "], value: ".spec_bytes() + opt_list_text(value) + " }".spec_bytes();
            let ct = children_text(cs, cs.len());
            assert(child_text(cs[i]) == p1 + nt + s1);
            assert(node_text(n) == h + ct + t);
            assert(ct == a + (p1 + nt + s1) + b);
            let r = (h + a + p1, s1 + b + t);
            assert(h + (a + (p1 + nt + s1) + b) + t =~= r.0 + nt + r.1);
            r
        },
        Node::Leaf { .. } => {
            (Seq::<u8>::empty(), Seq::<u8>::empty())
        },
    }
}

/// `part` occurs in `whole`: some text, then `part`, then some more.
pub open spec fn occurs_in(part: Seq<u8>, whole: Seq<u8>) -> bool {
    exists|a: Seq<u8>, b: Seq<u8>| whole == a + part + b
}

/// The text a node is hashed over holds what the node stores: a leaf its key nibbles and
/// its value bytes, a branch its value bytes when it has one.
pub proof fn lemma_node_text_holds_contents(n: Node)
    ensures
        n matches Node::Leaf { key, value } ==> occurs_in(list_text(key@), node_text(n)) && occurs_in(list_text(value@), node_text(n)),
        n matches Node::Branch { value: Some(v), .. } ==> occurs_in(list_text(v@), node_text(n)),
{
    match n {
        Node::Leaf { key, value } => {
            let h = "Leaf { key: Nibbles(".spec_bytes();
            let m = "), value: ".spec_bytes();
            let t = " }".spec_bytes();
            let kt = list_text(key@);
            let vt = list_text(value@);
            assert(node_text(n) =~= h + kt + (m + vt + t));
            assert(node_text(n) =~= (h + kt + m) + vt + t);
        },
        Node::Branch { children, value } => {
            if let Some(v) = value {
                let a = "Branch { children: [".spec_bytes() + children_text(children@, children@.len()) + "], value: ".spec_bytes()
                    + "Some(".spec_bytes();
                let b = ")".spec_bytes() + " }".spec_bytes();
                assert(node_text(n) =~= a + list_text(v@) + b);
            }
        },
    }
}

/// Appends the ASCII bytes of `s`.
fn push_text(out: &mut Vec<u8>, s: &str)
    ensures
        final(out)@ == old(out)@ + s.spec_bytes(),
{
    let b = s.as_bytes();
    let ghost o0 = out@;
    let mut i: usize = 0;
    while i < b.len()
        invariant
            i <= b@.len(),
            b@ == s.spec_bytes(),
            out@ == o0 + b@.subrange(0, i as int),
        decreases b@.len() - i,
    {
        out.push(b[i]);
        i = i + 1;
        assert(out@ =~= o0 + b@.subrange(0, i as int));
    }
    assert(b@.subrange(0, b@.len() as int) =~= b@);
}

/// Appends the decimal digits of `b`.
fn push_u8_text(out: &mut Vec<u8>, b: u8)
    ensures
        final(out)@ == old(out)@ + u8_text(b),
{
    let ghost o0 = out@;
    if b < 10 {
        out.push(48 + b);
    } else if b < 100 {
        out.push(48 + b / 10);
        out.push(48 + b % 10);
    } else {
        out.push(48 + b / 100);
        out.push(48 + (b / 10) % 10);
        out.push(48 + b % 10);
    }
    assert(out@ =~= o0 + u8_text(b));
}

/// Appends a byte list as `[1, 2, 3]`.
fn push_list_text(out: &mut Vec<u8>, s: &Vec<u8>)
    ensures
        final(out)@ == old(out)@ + list_text(s@),
{
    let ghost o0 = out@;
    push_text(out, "[");
    let ghost o1 = out@;
    let mut i: usize = 0;
    while i < s.len()
        invariant
            i <= s@.len(),
            out@ == o1 + items_text(s@.subrange(0, i as int)),
        decreases s@.len() - i,
    {
        let ghost prev = out@;
        if i > 0 {
            push_text(out, ", ");
        }
        push_u8_text(out, s[i]);
        proof {
            let t = s@.subrange(0, i + 1);
            assert(t.drop_last() =~= s@.subrange(0, i as int));
            if i == 0 {
                assert(items_text(s@.subrange(0, 0)) =~= Seq::<u8>::empty());
                assert(out@ =~= o1 + items_text(t));
            } else {
                assert(out@ =~= o1 + items_text(t));
            }
        }
        i = i + 1;
    }
    assert(s@.subrange(0, s@.len() as int) =~= s@);
    push_text(out, "]");
    assert(out@ =~= o0 + list_text(s@));
}

/// Appends the text of a child slot.
fn push_child_text(out: &mut Vec<u8>, c: &Option<Box<Node>>)
    requires
        match *c {
            Some(b) => node_wf(*b),
            None => true,
        },
    ensures
        final(out)@ == old(out)@ + child_text(*c),
    decreases *c, 0nat,
{
    let ghost o0 = out@;
    match c {
        None => push_text(out, "None"),
        Some(b) => {
            push_text(out, "Some(RefCell { value: ");
            push_node_text(out, b);
            push_text(out, " })");
            assert(out@ =~= o0 + child_text(*c));
        },
    }
}

/// Appends the text of a node.
fn push_node_text(out: &mut Vec<u8>, n: &Node)
    requires
        node_wf(*n),
    ensures
        final(out)@ == old(out)@ + node_text(*n),
    decreases *n, 0nat,
{
    let ghost o0 = out@;
    match n {
        Node::Leaf { key, value } => {
            push_text(out, "Leaf { key: Nibbles(");
            push_list_text(out, &key.0);
            push_text(out, "), value: ");
            push_list_text(out, value);
            push_text(out, " }");
            assert(out@ =~= o0 + node_text(*n));
        },
        Node::Branch { children, value } => {
            push_text(out, "Branch { children: [");
            let ghost o1 = out@;
            let mut i: usize = 0;
            while i < children.len()
                invariant
                    i <= children@.len(),
                    node_wf(*n),
                    *n == (Node::Branch { children: *children, value: *value }),
                    out@ == o1 + children_text(children@, i as nat),
                decreases children@.len() - i,
            {
                if i > 0 {
                    push_text(out, ", ");
                }
                proof {
                    assert(decreases_to!(children => children[i as int]));
                    assert(match children@[i as int] {
                        Some(b) => node_wf(*b),
                        None => true,
                    });
                }
                push_child_text(out, &children[i]);
                proof {
                    if i == 0 {
                        assert(out@ =~= o1 + children_text(children@, 1));
                    } else {
                        assert(out@ =~= o1 + children_text(children@, (i + 1) as nat));
                    }
                }
                i = i + 1;
            }
            push_text(out, "], value: ");
            match value {
                None => push_text(out, "None"),
                Some(v) => {
                    push_text(out, "Some(");
                    push_list_text(out, v);
                    push_text(out, ")");
                },
            }
            push_text(out, " }");
            assert(out@ =~= o0 + node_text(*n));
        },
    }
}

/// An optional byte vector taken by its contents.
pub open spec fn opt_bytes(v: Option<Vec<u8>>) -> Option<Seq<u8>> {
    match v {
        Some(b) => Some(b@),
        None => None,
    }
}

/// A copy of a byte vector.
fn copy_bytes(v: &Vec<u8>) -> (r: Vec<u8>)
    ensures
        r@ == v@,
{
    let r = v.clone();
    assert(r@ =~= v@);
    r
}

/// Whether `k` equals the rest of `key` from `depth` on.
fn tail_matches(k: &Vec<u8>, key: &Vec<u8>, depth: usize) -> (r: bool)
    ensures
        r == (k@ == key_tail(key@, depth as nat)),
{
    let start: usize = if depth <= key.len() { depth } else { key.len() };
    let ghost tail = key_tail(key@, depth as nat);
    assert(tail =~= key@.subrange(start as int, key@.len() as int));
    if k.len() != key.len() - start {
        return false;
    }
    let mut i: usize = 0;
    while i < k.len()
        invariant
            i <= k@.len(),
            k@.len() == tail.len(),
            start <= key@.len(),
            start + k@.len() == key@.len(),
            key@.len() <= usize::MAX,
            tail == key@.subrange(start as int, key@.len() as int),
            forall|j: int| 0 <= j < i ==> #[trigger] k@[j] == tail[j],
        decreases k@.len() - i,
    {
        if k[i] != key[start + i] {
            return false;
        }
        i = i + 1;
    }
    assert(k@ =~= tail);
    true
}

impl Node {
    /// Looks `key` up below this node, which sits at nibble depth `depth`.
    pub fn get(&self, key: &Nibbles, depth: usize) -> (r: Option<Vec<u8>>)
        requires
            node_wf(*self),
            all_nibbles(key@),
        ensures
            opt_bytes(r) == node_get(*self, key@, depth as nat),
        decreases *self,
    {
        match self {
            Node::Leaf { key: k, value } => {
                if tail_matches(&k.0, &key.0, depth) {
                    Some(copy_bytes(value))
                } else {
                    None
                }
            },
            Node::Branch { children, value } => {
                if key.0.len() <= depth {
                    return match value {
                        Some(v) => Some(copy_bytes(v)),
                        None => None,
                    };
                }
                let index = key.0[depth] as usize;
                proof {
                    assert(key@[depth as int] < 16);
                    assert(decreases_to!(children => children[index as int]));
                }
                match &children[index] {
                    Some(c) => c.get(key, depth + 1),
                    None => None,
                }
            },
        }
    }
}

/// Distinct byte keys have distinct nibble keys.
proof fn lemma_nibbles_injective(a: Seq<u8>, b: Seq<u8>)
    requires
        nibbles_of(a) == nibbles_of(b),
    ensures
        a == b,
{
    assert(nibbles_of(a).len() == 2 * a.len() && nibbles_of(b).len() == 2 * b.len());
    assert forall|i: int| 0 <= i < a.len() implies a[i] == b[i] by {
        assert((2 * i) / 2 == i && (2 * i) % 2 == 0);
        assert((2 * i + 1) / 2 == i && (2 * i + 1) % 2 == 1);
        assert(nibbles_of(a)[2 * i] == a[i] / 16);
        assert(nibbles_of(b)[2 * i] == b[i] / 16);
        assert(nibbles_of(a)[2 * i + 1] == a[i] % 16);
        assert(nibbles_of(b)[2 * i + 1] == b[i] % 16);
        let x = a[i];
        let y = b[i];
        assert(x / 16 == y / 16 && x % 16 == y % 16 ==> x == y) by (bit_vector);
    }
    assert(a =~= b);
}

/// A trie whose root is a single leaf for `key`, which is what the first insert into an
/// empty trie leaves, finds a value under exactly one key: `key` itself. Every other key,
/// a longer one that starts with `key` among them, finds nothing.
pub proof fn lemma_single_leaf_lookup(n: Node, key: Seq<u8>, k2: Seq<u8>)
    requires
        n matches Node::Leaf { key: k, .. } && k@ == nibbles_of(key),
    ensures
        n matches Node::Leaf { value, .. } && trie_get(Some(Box::new(n)), k2) == (if k2 == key {
            Some(value@)
        } else {
            None
        }),
{
    assert(key_tail(nibbles_of(k2), 0) =~= nibbles_of(k2));
    if nibbles_of(k2) == nibbles_of(key) {
        lemma_nibbles_injective(k2, key);
    }
}

/// Below a branch root, a leaf for a non-empty `key` at the slot of its first nibble
/// answers, among the keys that share that first nibble, exactly `key`: every other such
/// key, a longer one that starts with `key` among them, finds nothing.
pub proof fn lemma_branch_leaf_lookup(n: Node, key: Seq<u8>, k2: Seq<u8>)
    requires
        key.len() > 0,
        k2.len() > 0,
        nibbles_of(k2)[0] == nibbles_of(key)[0],
        n matches Node::Branch { children, .. } && (children@.len() == 16
            && (children@[nibbles_of(key)[0] as int] matches Some(l)
            && (*l matches Node::Leaf { key: k, .. } && k@ == nibbles_of(key).drop_first()))),
    ensures
        n matches Node::Branch { children, .. } && (children@[nibbles_of(key)[0] as int] matches Some(l)
            && (*l matches Node::Leaf { value, .. } && trie_get(Some(Box::new(n)), k2) == (if k2 == key {
                Some(value@)
            } else {
                None
            }))),
{
    let a = nibbles_of(key);
    let b = nibbles_of(k2);
    assert(key_tail(b, 1) =~= b.drop_first());
    reveal_with_fuel(node_get, 2);
    if a.drop_first() == b.drop_first() {
        assert(a =~= b) by {
            assert forall|i: int| 0 <= i < a.len() implies a[i] == b[i] by {
                if i > 0 {
                    assert(a[i] == a.drop_first()[i - 1]);
                    assert(b[i] == b.drop_first()[i - 1]);
                }
            }
        }
        lemma_nibbles_injective(k2, key);
    }
}

/// A trie whose root, if any, is a well-formed node.
pub struct MerklePatriciaTrie {
    root: Option<Box<Node>>,
}

/// What a lookup of a byte key finds in a trie with root `root`.
pub open spec fn trie_get(root: Option<Box<Node>>, key: Seq<u8>) -> Option<Seq<u8>> {
    match root {
        Some(n) => node_get(*n, nibbles_of(key), 0),
        None => None,
    }
}

impl MerklePatriciaTrie {
    pub closed spec fn root_node(&self) -> Option<Box<Node>> {
        self.root
    }

    pub closed spec fn wf(&self) -> bool {
        match self.root {
            Some(n) => node_wf(*n),
            None => true,
        }
    }

    pub fn new() -> (r: Self)
        ensures
            r.wf(),
            r.root_node() is None,
    {
        MerklePatriciaTrie { root: None }
    }

    /// Inserts `value` under `key`. An empty trie gets a single leaf; otherwise a new
    /// branch root keeps the old root as its first child and puts a leaf with the rest of
    /// the key at the key's first nibble.
    pub fn insert(&mut self, key: &[u8], value: Vec<u8>)
        requires
            old(self).wf(),
            2 * key@.len() <= usize::MAX,
        ensures
            final(self).wf(),
            old(self).root_node() is None ==> (final(self).root_node() matches Some(n)
                && (*n matches Node::Leaf { key: k, value: v } && k@ == nibbles_of(key@) && v@ == value@)),
            old(self).root_node() matches Some(r) ==> (final(self).root_node() matches Some(n)
                && (*n matches Node::Branch { children, value: bv } && bv is None && children@.len() == 16
                && (key@.len() == 0 ==> children@[0] == Some(r) && forall|i: int| 1 <= i < 16 ==> #[trigger] children@[i] is None)
                && (key@.len() > 0 ==> {
                    let first = nibbles_of(key@)[0] as int;
                    &&& (children@[first] matches Some(l) && (*l matches Node::Leaf { key: k, value: v }
                        && k@ == nibbles_of(key@).drop_first() && v@ == value@))
                    &&& first != 0 ==> children@[0] == Some(r)
                    &&& forall|i: int| 1 <= i < 16 && i != first ==> #[trigger] children@[i] is None
                }))),
            key@.len() > 0 || old(self).root_node() is None ==> trie_get(final(self).root_node(), key@) == Some(value@),
            old(self).root_node() is None ==> forall|k2: Seq<u8>| #[trigger] trie_get(final(self).root_node(), k2)
                == (if k2 == key@ { Some(value@) } else { None }),
            key@.len() > 0 ==> forall|k2: Seq<u8>| k2.len() > 0 && nibbles_of(k2)[0] == nibbles_of(key@)[0]
                ==> #[trigger] trie_get(final(self).root_node(), k2) == (if k2 == key@ { Some(value@) } else { None }),
    {
        let key_nibbles = Nibbles::from_bytes(key);
        if self.root.is_none() {
            self.root = Some(Box::new(Node::Leaf { key: key_nibbles, value }));
            proof {
                assert(key_tail(nibbles_of(key@), 0) =~= nibbles_of(key@));
                let n = *self.root.unwrap();
                assert forall|k2: Seq<u8>| #[trigger] trie_get(self.root, k2) == (if k2 == key@ { Some(value@) } else { None }) by {
                    lemma_single_leaf_lookup(n, key@, k2);
                }
            }
            return;
        }
        let mut children: Vec<Option<Box<Node>>> = Vec::new();
        let mut i: usize = 0;
        while i < 16
            invariant
                i <= 16,
                children@.len() == i,
                forall|j: int| 0 <= j < i ==> #[trigger] children@[j] is None,
            decreases 16 - i,
        {
            children.push(None);
            i = i + 1;
        }
        let old_root = self.root.take();
        let ghost r = old_root;
        children.set(0, old_root);
        let ghost leaf_key = nibbles_of(key@).drop_first();
        if key_nibbles.0.len() > 0 {
            let first = key_nibbles.0[0] as usize;
            let (_, rest) = key_nibbles.split_at(1);
            assert(rest@ =~= leaf_key);
            children.set(first, Some(Box::new(Node::Leaf { key: rest, value })));
        }
        assert forall|i: int| 0 <= i < 16 implies match #[trigger] children@[i] {
            Some(c) => node_wf(*c),
            None => true,
        } by {
            if i == 0 && children@[0] == r {
                assert(r matches Some(c) && node_wf(*c));
            }
        }
        let node = Node::Branch { children, value: None };
        proof {
            assert(node_wf(node));
            if key@.len() > 0 {
                reveal_with_fuel(node_get, 2);
                assert(key_tail(nibbles_of(key@), 1) =~= leaf_key);
            }
        }
        self.root = Some(Box::new(node));
        proof {
            if key@.len() > 0 {
                assert forall|k2: Seq<u8>| k2.len() > 0 && nibbles_of(k2)[0] == nibbles_of(key@)[0]
                    implies #[trigger] trie_get(self.root, k2) == (if k2 == key@ { Some(value@) } else { None }) by {
                    lemma_branch_leaf_lookup(node, key@, k2);
                }
            }
        }
    }

    /// The value stored under `key`, as far as the trie's shape still reaches it.
    pub fn get(&self, key: &[u8]) -> (r: Option<Vec<u8>>)
        requires
            self.wf(),
            2 * key@.len() <= usize::MAX,
        ensures
            opt_bytes(r) == trie_get(self.root_node(), key@),
    {
        let key_nibbles = Nibbles::from_bytes(key);
        match &self.root {
            Some(n) => n.get(&key_nibbles, 0),
            None => None,
        }
    }

    /// Keccak-256 of the root node's text, if there is a root.
    pub fn root_hash(&self) -> (r: Option<[u8; 32]>)
        requires
            self.wf(),
        ensures
            match self.root_node() {
                Some(n) => r matches Some(h) && h@ == keccak256_of(node_text(*n)),
                None => r is None,
            },
    {
        match &self.root {
            Some(n) => {
                let mut text: Vec<u8> = Vec::new();
                push_node_text(&mut text, n);
                assert(text@ =~= node_text(**n));
                Some(keccak256(text.as_slice()))
            },
            None => None,
        }
    }
}

/// Whether two byte strings are equal.
pub fn bytes_eq(a: &[u8], b: &[u8]) -> (r: bool)
    ensures
        r == (a@ == b@),
{
    if a.len() != b.len() {
        return false;
    }
    let mut i: usize = 0;
    while i < a.len()
        invariant
            i <= a@.len(),
            a@.len() == b@.len(),
            forall|j: int| 0 <= j < i ==> #[trigger] a@[j] == b@[j],
        decreases a@.len() - i,
    {
        if a[i] != b[i] {
            return false;
        }
        i = i + 1;
    }
    assert(a@ =~= b@);
    true
}

/// Account state in the shape of Ethereum's.
#[derive(Clone, Copy)]
pub struct Account {
    pub nonce: u64,
    pub balance: u64,
    pub storage_root: [u8; 32],
    pub code_hash: [u8; 32],
}

/// Accounts keyed by address.
pub struct StateDB {
    accounts: Vec<(Vec<u8>, Account)>,
}

impl StateDB {
    /// The address and account pairs, the first pair of an address being the one read.
    pub closed spec fn entries(&self) -> Seq<(Seq<u8>, Account)> {
        self.accounts@.map_values(|p: (Vec<u8>, Account)| (p.0@, p.1))
    }

    /// The account stored for `address`, if any.
    pub open spec fn account_of(&self, address: Seq<u8>) -> Option<Account> {
        lookup_spec(self.entries(), address)
    }

    pub fn new() -> (r: Self)
        ensures
            r.entries() == Seq::<(Seq<u8>, Account)>::empty(),
            forall|a: Seq<u8>| r.account_of(a) is None,
    {
        let r = StateDB { accounts: Vec::new() };
        assert(r.entries() =~= Seq::<(Seq<u8>, Account)>::empty());
        r
    }

    fn find(&self, address: &[u8]) -> (r: Option<usize>)
        ensures
            match r {
                Some(i) => first_key_index(self.entries(), address@) == Some(i as int) && i < self.accounts@.len(),
                None => first_key_index(self.entries(), address@) is None,
            },
    {
        let ghost e = self.entries();
        let mut i: usize = 0;
        while i < self.accounts.len()
            invariant
                i <= self.accounts@.len(),
                e == self.entries(),
                e.len() == self.accounts@.len(),
                forall|j: int| 0 <= j < i ==> (#[trigger] e[j]).0 != address@,
            decreases self.accounts@.len() - i,
        {
            if bytes_eq(self.accounts[i].0.as_slice(), address) {
                proof {
                    lemma_first_key_index(e, address@, i as int);
                }
                return Some(i);
            }
            i = i + 1;
        }
        proof {
            lemma_first_key_index_spec(e, address@);
        }
        None
    }

    /// Stores `account` under `address`, replacing what was stored there.
    pub fn update_account(&mut self, address: &[u8], account: Account)
        ensures
            final(self).entries() == upsert_spec(old(self).entries(), address@, account),
            final(self).account_of(address@) == Some(account),
            forall|other: Seq<u8>| other != address@ ==> #[trigger] final(self).account_of(other) == old(self).account_of(other),
    {
        let ghost e0 = self.entries();
        let key = vstd::slice::slice_to_vec(address);
        match self.find(address) {
            Some(i) => {
                self.accounts.set(i, (key, account));
            },
            None => {
                self.accounts.push((key, account));
            },
        }
        assert(self.entries() =~= upsert_spec(e0, address@, account));
        proof {
            assert forall|other: Seq<u8>| other != address@ implies #[trigger] lookup_spec(self.entries(), other) == lookup_spec(e0, other) by {
                lemma_upsert_lookup(e0, address@, account, other);
            }
            lemma_upsert_lookup(e0, address@, account, address@);
        }
    }

    /// The account stored under `address`, if any.
    pub fn get_account(&self, address: &[u8]) -> (r: Option<Account>)
        ensures
            r == self.account_of(address@),
    {
        match self.find(address) {
            Some(i) => Some(self.accounts[i].1),
            None => None,
        }
    }
}

} // verus!
