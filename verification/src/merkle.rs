//! The sparse Merkle tree of the ledger state (160 levels, one per address
//! bit) and its inclusion and exclusion proofs.
use vstd::prelude::*;

use crate::bytes::push_all;
use crate::hashing::{sha256, sha256_of};
use crate::keymap::KeyMap;
use crate::types::{Address, H256};

verus! {

broadcast use vstd::array::group_array_axioms;

/// Bit `i` of an address, most significant bit of byte 0 first.
pub open spec fn key_bit(a: Address, i: int) -> bool {
    ((a.bytes[i / 8] >> ((7 - i % 8) as u8)) & 1u8) == 1u8
}

/// The first `p.len()` bits of `a` are `p`.
pub open spec fn has_prefix(a: Address, p: Seq<bool>) -> bool {
    forall|i: int| 0 <= i < p.len() ==> key_bit(a, i) == p[i]
}

/// The first `n` bits of `a`.
pub open spec fn key_path(a: Address, n: int) -> Seq<bool> {
    Seq::new(n as nat, |i: int| key_bit(a, i))
}

/// The hash of an empty leaf.
pub open spec fn empty_leaf_hash() -> Seq<u8> {
    sha256_of(seq![0u8])
}

/// The hash of the leaf holding `value` under `key`.
pub open spec fn leaf_hash_of(key: Address, value: H256) -> Seq<u8> {
    sha256_of(seq![0u8] + key.bytes@ + value.bytes@)
}

/// The hash of an inner node with children hashes `l` and `r`.
pub open spec fn internal_hash_of(l: Seq<u8>, r: Seq<u8>) -> Seq<u8> {
    sha256_of(seq![1u8] + l + r)
}

/// The hash of an empty subtree of height `h`.
pub open spec fn default_hash(h: nat) -> Seq<u8>
    decreases h,
{
    if h == 0 {
        empty_leaf_hash()
    } else {
        internal_hash_of(default_hash((h - 1) as nat), default_hash((h - 1) as nat))
    }
}

/// Some key of `m` lies in the subtree at path `p`.
pub open spec fn occupied(m: Map<Address, H256>, p: Seq<bool>) -> bool {
    exists|k: Address| #[trigger] m.contains_key(k) && has_prefix(k, p)
}

/// The hash of the subtree of height `h` at path `p` of the tree holding `m`.
pub open spec fn node_hash(m: Map<Address, H256>, p: Seq<bool>, h: nat) -> Seq<u8>
    decreases h,
{
    if h == 0 {
        if occupied(m, p) {
            let k = choose|k: Address| #[trigger] m.contains_key(k) && has_prefix(k, p);
            leaf_hash_of(k, m[k])
        } else {
            default_hash(0)
        }
    } else {
        internal_hash_of(node_hash(m, p.push(false), (h - 1) as nat), node_hash(m, p.push(true), (h - 1) as nat))
    }
}

/// The root hash of the tree holding `m`.
pub open spec fn merkle_root(m: Map<Address, H256>) -> Seq<u8> {
    node_hash(m, Seq::empty(), 160)
}

/// The siblings of `key`'s path, from the leaf level up.
pub open spec fn sibling_hashes(m: Map<Address, H256>, key: Address) -> Seq<Seq<u8>> {
    Seq::new(160, |i: int| node_hash(m, key_path(key, 159 - i).push(!key_bit(key, 159 - i)), i as nat))
}

/// The hash reached from `start` at the leaf after combining with the first
/// `j` siblings on the way up `key`'s path.
pub open spec fn climb(key: Address, start: Seq<u8>, sibs: Seq<Seq<u8>>, j: nat) -> Seq<u8>
    decreases j,
{
    if j == 0 {
        start
    } else {
        let c = climb(key, start, sibs, (j - 1) as nat);
        if key_bit(key, 160 - j) {
            internal_hash_of(sibs[j - 1], c)
        } else {
            internal_hash_of(c, sibs[j - 1])
        }
    }
}

/// The leaf hash a proof starts from.
pub open spec fn proof_leaf(key: Address, value: Option<H256>) -> Seq<u8> {
    match value {
        Some(v) => leaf_hash_of(key, v),
        None => empty_leaf_hash(),
    }
}

/// A proof for `key` with `value` and `sibs` leads to `root`.
pub open spec fn proof_valid(key: Address, value: Option<H256>, root: Seq<u8>, sibs: Seq<Seq<u8>>) -> bool {
    sibs.len() == 160 && climb(key, proof_leaf(key, value), sibs, 160) == root
}

/// The value stored under `key`, if any.
pub open spec fn lookup(m: Map<Address, H256>, key: Address) -> Option<H256> {
    if m.contains_key(key) {
        Some(m[key])
    } else {
        None
    }
}

/// Two bytes with the same eight bits are equal.
proof fn lemma_byte_from_bits(x: u8, y: u8)
    requires
        ((x >> 0u8) & 1u8) == ((y >> 0u8) & 1u8),
        ((x >> 1u8) & 1u8) == ((y >> 1u8) & 1u8),
        ((x >> 2u8) & 1u8) == ((y >> 2u8) & 1u8),
        ((x >> 3u8) & 1u8) == ((y >> 3u8) & 1u8),
        ((x >> 4u8) & 1u8) == ((y >> 4u8) & 1u8),
        ((x >> 5u8) & 1u8) == ((y >> 5u8) & 1u8),
        ((x >> 6u8) & 1u8) == ((y >> 6u8) & 1u8),
        ((x >> 7u8) & 1u8) == ((y >> 7u8) & 1u8),
    ensures
        x == y,
{
    assert(x == y) by (bit_vector)
        requires
            ((x >> 0u8) & 1u8) == ((y >> 0u8) & 1u8),
            ((x >> 1u8) & 1u8) == ((y >> 1u8) & 1u8),
            ((x >> 2u8) & 1u8) == ((y >> 2u8) & 1u8),
            ((x >> 3u8) & 1u8) == ((y >> 3u8) & 1u8),
            ((x >> 4u8) & 1u8) == ((y >> 4u8) & 1u8),
            ((x >> 5u8) & 1u8) == ((y >> 5u8) & 1u8),
            ((x >> 6u8) & 1u8) == ((y >> 6u8) & 1u8),
            ((x >> 7u8) & 1u8) == ((y >> 7u8) & 1u8),
    ;
}

/// A bit is either 0 or 1.
proof fn lemma_bit_values(x: u8, s: u8)
    requires
        s < 8,
    ensures
        ((x >> s) & 1u8) == 0u8 || ((x >> s) & 1u8) == 1u8,
{
    assert(((x >> s) & 1u8) == 0u8 || ((x >> s) & 1u8) == 1u8) by (bit_vector);
}

/// Two addresses with the same path agree on bit `7 - t` of byte `j`.
proof fn lemma_same_bit(a: Address, b: Address, p: Seq<bool>, j: int, t: int)
    requires
        0 <= j < 20,
        0 <= t < 8,
        p.len() == 160,
        has_prefix(a, p),
        has_prefix(b, p),
    ensures
        ((a.bytes[j] >> ((7 - t) as u8)) & 1u8) == ((b.bytes[j] >> ((7 - t) as u8)) & 1u8),
{
    let i = 8 * j + t;
    assert(i / 8 == j && i % 8 == t);
    assert(key_bit(a, i) == p[i] && key_bit(b, i) == p[i]);
    lemma_bit_values(a.bytes[j], (7 - t) as u8);
    lemma_bit_values(b.bytes[j], (7 - t) as u8);
}

/// Addresses are determined by their 160 bits.
pub proof fn lemma_path_determines_key(a: Address, b: Address, p: Seq<bool>)
    requires
        p.len() == 160,
        has_prefix(a, p),
        has_prefix(b, p),
    ensures
        a == b,
{
    assert forall|j: int| 0 <= j < 20 implies a.bytes[j] == b.bytes[j] by {
        lemma_same_bit(a, b, p, j, 0);
        lemma_same_bit(a, b, p, j, 1);
        lemma_same_bit(a, b, p, j, 2);
        lemma_same_bit(a, b, p, j, 3);
        lemma_same_bit(a, b, p, j, 4);
        lemma_same_bit(a, b, p, j, 5);
        lemma_same_bit(a, b, p, j, 6);
        lemma_same_bit(a, b, p, j, 7);
        lemma_byte_from_bits(a.bytes[j], b.bytes[j]);
    }
    assert(a.bytes =~= b.bytes);
}

/// An empty subtree hashes to the default of its height.
pub proof fn lemma_empty_subtree(m: Map<Address, H256>, p: Seq<bool>, h: nat)
    requires
        !occupied(m, p),
    ensures
        node_hash(m, p, h) == default_hash(h),
    decreases h,
{
    if h > 0 {
        assert(!occupied(m, p.push(false))) by {
            if occupied(m, p.push(false)) {
                let k = choose|k: Address| #[trigger] m.contains_key(k) && has_prefix(k, p.push(false));
                assert forall|i: int| 0 <= i < p.len() implies key_bit(k, i) == p[i] by {
                    assert(p.push(false)[i] == p[i]);
                }
                assert(m.contains_key(k) && has_prefix(k, p));
            }
        }
        assert(!occupied(m, p.push(true))) by {
            if occupied(m, p.push(true)) {
                let k = choose|k: Address| #[trigger] m.contains_key(k) && has_prefix(k, p.push(true));
                assert forall|i: int| 0 <= i < p.len() implies key_bit(k, i) == p[i] by {
                    assert(p.push(true)[i] == p[i]);
                }
                assert(m.contains_key(k) && has_prefix(k, p));
            }
        }
        lemma_empty_subtree(m, p.push(false), (h - 1) as nat);
        lemma_empty_subtree(m, p.push(true), (h - 1) as nat);
    }
}

/// Climbing a key's path with the tree's siblings reaches the hash of each
/// subtree on the path.
proof fn lemma_climb(m: Map<Address, H256>, key: Address, j: nat)
    requires
        j <= 160,
    ensures
        climb(key, proof_leaf(key, lookup(m, key)), sibling_hashes(m, key), j) == node_hash(
            m,
            key_path(key, 160 - j),
            j,
        ),
    decreases j,
{
    let p = key_path(key, 160 - j);
    if j == 0 {
        if m.contains_key(key) {
            assert(has_prefix(key, p));
            assert(occupied(m, p));
            let k = choose|k: Address| #[trigger] m.contains_key(k) && has_prefix(k, p);
            lemma_path_determines_key(k, key, p);
        } else {
            if occupied(m, p) {
                let k = choose|k: Address| #[trigger] m.contains_key(k) && has_prefix(k, p);
                lemma_path_determines_key(k, key, p);
            }
        }
    } else {
        lemma_climb(m, key, (j - 1) as nat);
        let b = key_bit(key, 160 - j);
        assert(key_path(key, 161 - j) =~= p.push(b));
        assert(sibling_hashes(m, key)[j - 1] == node_hash(m, p.push(!b), (j - 1) as nat));
    }
}

/// Every proof the tree produces verifies against the tree's root: for a key
/// present it proves its value, for a key absent it proves absence.
pub proof fn lemma_proof_verifies(m: Map<Address, H256>, key: Address)
    ensures
        proof_valid(key, lookup(m, key), merkle_root(m), sibling_hashes(m, key)),
{
    lemma_climb(m, key, 160);
    assert(key_path(key, 0) =~= Seq::<bool>::empty());
}

/// The hash of an empty leaf.
pub fn empty_leaf() -> (h: H256)
    ensures
        h.bytes@ == empty_leaf_hash(),
{
    let mut b: Vec<u8> = Vec::new();
    b.push(0u8);
    proof {
        assert(b@ =~= seq![0u8]);
    }
    H256 { bytes: sha256(b.as_slice()) }
}

/// Hash a leaf: its key and value hash behind a leaf tag.
pub fn leaf_hash(key: &Address, value_hash: &H256) -> (h: H256)
    ensures
        h.bytes@ == leaf_hash_of(*key, *value_hash),
{
    let mut b: Vec<u8> = Vec::new();
    b.push(0u8);
    push_all(&mut b, key.bytes.as_slice());
    push_all(&mut b, value_hash.bytes.as_slice());
    proof {
        assert(b@ =~= seq![0u8] + key.bytes@ + value_hash.bytes@);
    }
    H256 { bytes: sha256(b.as_slice()) }
}

/// Hash two children behind an inner-node tag.
pub fn internal_hash(left: &H256, right: &H256) -> (h: H256)
    ensures
        h.bytes@ == internal_hash_of(left.bytes@, right.bytes@),
{
    let mut b: Vec<u8> = Vec::new();
    b.push(1u8);
    push_all(&mut b, left.bytes.as_slice());
    push_all(&mut b, right.bytes.as_slice());
    proof {
        assert(b@ =~= seq![1u8] + left.bytes@ + right.bytes@);
    }
    H256 { bytes: sha256(b.as_slice()) }
}

/// Bit `bit_index` of `addr`, most significant first.
pub fn get_bit(addr: &Address, bit_index: usize) -> (r: bool)
    requires
        bit_index < 160,
    ensures
        r == key_bit(*addr, bit_index as int),
{
    let byte_idx = bit_index / 8;
    let bit_offset = (7 - (bit_index % 8)) as u8;
    (addr.bytes[byte_idx] >> bit_offset) & 1u8 == 1u8
}

/// The 160 bits of an address, most significant first.
pub fn address_to_bits(addr: &Address) -> (bits: Vec<bool>)
    ensures
        bits@ == key_path(*addr, 160),
{
    let mut bits: Vec<bool> = Vec::new();
    let mut i: usize = 0;
    while i < 160
        invariant
            i <= 160,
            bits@ =~= key_path(*addr, i as int),
        decreases 160 - i,
    {
        bits.push(get_bit(addr, i));
        i = i + 1;
    }
    bits
}

/// The hashes of empty subtrees of every height, stored by height.
pub open spec fn defaults_ok(d: Seq<H256>) -> bool {
    &&& d.len() == 161
    &&& forall|h: int| 0 <= h < 161 ==> (#[trigger] d[h]).bytes@ == default_hash(h as nat)
}

/// The hashes of empty subtrees of heights 0 to 160.
fn precompute_defaults() -> (d: Vec<H256>)
    ensures
        defaults_ok(d@),
{
    let mut d: Vec<H256> = Vec::new();
    d.push(empty_leaf());
    let mut h: usize = 1;
    while h <= 160
        invariant
            1 <= h <= 161,
            d@.len() == h,
            forall|k: int| 0 <= k < h ==> (#[trigger] d@[k]).bytes@ == default_hash(k as nat),
        decreases 161 - h,
    {
        let prev = d[h - 1];
        d.push(internal_hash(&prev, &prev));
        h = h + 1;
    }
    d
}

/// `leaves` lists exactly the entries of `m` in the subtree at path `p`.
pub open spec fn covers(m: Map<Address, H256>, leaves: Seq<(Address, H256)>, p: Seq<bool>) -> bool {
    &&& forall|i: int|
        0 <= i < leaves.len() ==> m.contains_key(#[trigger] leaves[i].0) && m[leaves[i].0] == leaves[i].1
            && has_prefix(leaves[i].0, p)
    &&& forall|k: Address|
        #[trigger] m.contains_key(k) && has_prefix(k, p) ==> exists|i: int|
            0 <= i < leaves.len() && #[trigger] leaves[i].0 == k
}

/// Split the entries of a subtree into those of its left and right children.
fn split_by_bit(leaves: &Vec<(Address, H256)>, bit_index: usize, Ghost(m): Ghost<Map<Address, H256>>, Ghost(p): Ghost<Seq<bool>>) -> (r: (
    Vec<(Address, H256)>,
    Vec<(Address, H256)>,
))
    requires
        bit_index < 160,
        p.len() == bit_index,
        covers(m, leaves@, p),
    ensures
        covers(m, r.0@, p.push(false)),
        covers(m, r.1@, p.push(true)),
{
    let mut left: Vec<(Address, H256)> = Vec::new();
    let mut right: Vec<(Address, H256)> = Vec::new();
    let mut i: usize = 0;
    while i < leaves.len()
        invariant
            i <= leaves@.len(),
            p.len() == bit_index,
            bit_index < 160,
            covers(m, leaves@, p),
            forall|a: int|
                0 <= a < left@.len() ==> m.contains_key(#[trigger] left@[a].0) && m[left@[a].0] == left@[a].1
                    && has_prefix(left@[a].0, p.push(false)),
            forall|a: int|
                0 <= a < right@.len() ==> m.contains_key(#[trigger] right@[a].0) && m[right@[a].0] == right@[a].1
                    && has_prefix(right@[a].0, p.push(true)),
            forall|j: int|
                0 <= j < i && !key_bit(#[trigger] leaves@[j].0, bit_index as int) ==> exists|a: int|
                    0 <= a < left@.len() && #[trigger] left@[a].0 == leaves@[j].0,
            forall|j: int|
                0 <= j < i && key_bit(#[trigger] leaves@[j].0, bit_index as int) ==> exists|a: int|
                    0 <= a < right@.len() && #[trigger] right@[a].0 == leaves@[j].0,
        decreases leaves@.len() - i,
    {
        let e = leaves[i];
        let b = get_bit(&e.0, bit_index);
        let ghost old_left = left@;
        let ghost old_right = right@;
        proof {
            assert(has_prefix(leaves@[i as int].0, p));
        }
        if b {
            right.push(e);
            proof {
                assert forall|t: int| 0 <= t < p.len() + 1 implies key_bit(e.0, t) == p.push(true)[t] by {
                    if t < p.len() {
                        assert(p.push(true)[t] == p[t]);
                    }
                }
                assert(right@[right@.len() - 1].0 == e.0);
            }
        } else {
            left.push(e);
            proof {
                assert forall|t: int| 0 <= t < p.len() + 1 implies key_bit(e.0, t) == p.push(false)[t] by {
                    if t < p.len() {
                        assert(p.push(false)[t] == p[t]);
                    }
                }
                assert(left@[left@.len() - 1].0 == e.0);
            }
        }
        proof {
            assert forall|j: int|
                0 <= j < i + 1 && !key_bit(#[trigger] leaves@[j].0, bit_index as int) implies exists|a: int|
                    0 <= a < left@.len() && #[trigger] left@[a].0 == leaves@[j].0 by {
                if j < i {
                    let a = choose|a: int| 0 <= a < old_left.len() && #[trigger] old_left[a].0 == leaves@[j].0;
                    assert(left@[a] == old_left[a]);
                } else {
                    assert(left@[left@.len() - 1].0 == leaves@[j].0);
                }
            }
            assert forall|j: int|
                0 <= j < i + 1 && key_bit(#[trigger] leaves@[j].0, bit_index as int) implies exists|a: int|
                    0 <= a < right@.len() && #[trigger] right@[a].0 == leaves@[j].0 by {
                if j < i {
                    let a = choose|a: int| 0 <= a < old_right.len() && #[trigger] old_right[a].0 == leaves@[j].0;
                    assert(right@[a] == old_right[a]);
                } else {
                    assert(right@[right@.len() - 1].0 == leaves@[j].0);
                }
            }
        }
        i = i + 1;
    }
    proof {
        assert forall|k: Address| #[trigger] m.contains_key(k) && has_prefix(k, p.push(false)) implies exists|a: int|
            0 <= a < left@.len() && #[trigger] left@[a].0 == k by {
            assert(has_prefix(k, p)) by {
                assert forall|t: int| 0 <= t < p.len() implies key_bit(k, t) == p[t] by {
                    assert(p.push(false)[t] == p[t]);
                }
            }
            let j = choose|j: int| 0 <= j < leaves@.len() && #[trigger] leaves@[j].0 == k;
            assert(!key_bit(k, bit_index as int)) by {
                assert(p.push(false)[bit_index as int] == false);
            }
            assert(!key_bit(leaves@[j].0, bit_index as int));
        }
        assert forall|k: Address| #[trigger] m.contains_key(k) && has_prefix(k, p.push(true)) implies exists|a: int|
            0 <= a < right@.len() && #[trigger] right@[a].0 == k by {
            assert(has_prefix(k, p)) by {
                assert forall|t: int| 0 <= t < p.len() implies key_bit(k, t) == p[t] by {
                    assert(p.push(true)[t] == p[t]);
                }
            }
            let j = choose|j: int| 0 <= j < leaves@.len() && #[trigger] leaves@[j].0 == k;
            assert(key_bit(k, bit_index as int)) by {
                assert(p.push(true)[bit_index as int] == true);
            }
            assert(key_bit(leaves@[j].0, bit_index as int));
        }
    }
    (left, right)
}

/// The hash of the subtree of height `height` at path `p`, from its entries.
fn subtree_hash(
    defaults: &Vec<H256>,
    leaves: &Vec<(Address, H256)>,
    bit_index: usize,
    height: usize,
    Ghost(m): Ghost<Map<Address, H256>>,
    Ghost(p): Ghost<Seq<bool>>,
) -> (h: H256)
    requires
        defaults_ok(defaults@),
        p.len() == bit_index,
        bit_index + height == 160,
        covers(m, leaves@, p),
    ensures
        h.bytes@ == node_hash(m, p, height as nat),
    decreases height,
{
    if leaves.len() == 0 {
        proof {
            if occupied(m, p) {
                let k = choose|k: Address| #[trigger] m.contains_key(k) && has_prefix(k, p);
                assert(exists|i: int| 0 <= i < leaves@.len() && #[trigger] leaves@[i].0 == k);
            }
            lemma_empty_subtree(m, p, height as nat);
        }
        return defaults[height];
    }
    if height == 0 {
        let e = leaves[0];
        proof {
            assert(m.contains_key(leaves@[0].0) && has_prefix(leaves@[0].0, p));
            let k = choose|k: Address| #[trigger] m.contains_key(k) && has_prefix(k, p);
            lemma_path_determines_key(k, e.0, p);
        }
        return leaf_hash(&e.0, &e.1);
    }
    let (left, right) = split_by_bit(leaves, bit_index, Ghost(m), Ghost(p));
    let lh = subtree_hash(defaults, &left, bit_index + 1, height - 1, Ghost(m), Ghost(p.push(false)));
    let rh = subtree_hash(defaults, &right, bit_index + 1, height - 1, Ghost(m), Ghost(p.push(true)));
    internal_hash(&lh, &rh)
}

/// The siblings along `target`'s path below depth `bit_index`, top first.
fn collect_siblings(
    defaults: &Vec<H256>,
    target: &Address,
    leaves: &Vec<(Address, H256)>,
    bit_index: usize,
    Ghost(m): Ghost<Map<Address, H256>>,
) -> (s: Vec<H256>)
    requires
        defaults_ok(defaults@),
        bit_index <= 160,
        covers(m, leaves@, key_path(*target, bit_index as int)),
    ensures
        s@.len() == 160 - bit_index,
        forall|t: int|
            0 <= t < s@.len() ==> (#[trigger] s@[t]).bytes@ == node_hash(
                m,
                key_path(*target, bit_index + t).push(!key_bit(*target, bit_index + t)),
                (159 - bit_index - t) as nat,
            ),
    decreases 160 - bit_index,
{
    if bit_index >= 160 {
        return Vec::new();
    }
    let ghost p = key_path(*target, bit_index as int);
    let (left, right) = split_by_bit(leaves, bit_index, Ghost(m), Ghost(p));
    let goes_right = get_bit(target, bit_index);
    let ghost next = key_path(*target, bit_index + 1);
    proof {
        assert(next =~= p.push(goes_right));
    }
    let (same_side, other_side) = if goes_right {
        (right, left)
    } else {
        (left, right)
    };
    let sibling = subtree_hash(defaults, &other_side, bit_index + 1, 159 - bit_index, Ghost(m), Ghost(p.push(!goes_right)));
    let rest = collect_siblings(defaults, target, &same_side, bit_index + 1, Ghost(m));
    let mut s: Vec<H256> = Vec::new();
    s.push(sibling);
    let mut k: usize = 0;
    while k < rest.len()
        invariant
            k <= rest@.len(),
            s@.len() == k + 1,
            s@[0] == sibling,
            forall|t: int| 0 <= t < k ==> s@[t + 1] == rest@[t],
        decreases rest@.len() - k,
    {
        s.push(rest[k]);
        k = k + 1;
    }
    proof {
        assert forall|t: int| 0 <= t < s@.len() implies (#[trigger] s@[t]).bytes@ == node_hash(
            m,
            key_path(*target, bit_index + t).push(!key_bit(*target, bit_index + t)),
            (159 - bit_index - t) as nat,
        ) by {
            if t == 0 {
                assert(key_path(*target, bit_index + 0) =~= p);
            } else {
                assert(s@[t] == rest@[t - 1]);
                assert(bit_index + 1 + (t - 1) == bit_index + t);
            }
        }
    }
    s
}

/// All entries of a map, as a list.
fn entry_list(leaves: &KeyMap<Address, H256>) -> (r: Vec<(Address, H256)>)
    ensures
        covers(leaves@, r@, Seq::empty()),
{
    let n = leaves.len();
    let mut r: Vec<(Address, H256)> = Vec::new();
    let mut i: usize = 0;
    while i < n
        invariant
            n == leaves.spec_len(),
            i <= n,
            r@.len() == i,
            forall|a: int| 0 <= a < i ==> (#[trigger] r@[a]).0 == leaves.key_at(a),
            forall|a: int|
                0 <= a < i ==> leaves@.contains_key(#[trigger] r@[a].0) && leaves@[r@[a].0] == r@[a].1,
        decreases n - i,
    {
        let (k, v) = leaves.entry_at(i);
        r.push((*k, *v));
        i = i + 1;
    }
    proof {
        assert forall|k: Address| #[trigger] leaves@.contains_key(k) && has_prefix(k, Seq::empty()) implies exists|a: int|
            0 <= a < r@.len() && #[trigger] r@[a].0 == k by {
            let a = choose|a: int| 0 <= a < leaves.spec_len() && #[trigger] leaves.key_at(a) == k;
            assert(r@[a].0 == k);
        }
    }
    r
}

/// The root hash of the tree holding the entries of `leaves`.
fn compute_root(defaults: &Vec<H256>, leaves: &KeyMap<Address, H256>) -> (h: H256)
    requires
        defaults_ok(defaults@),
    ensures
        h.bytes@ == merkle_root(leaves@),
{
    let list = entry_list(leaves);
    subtree_hash(defaults, &list, 0, 160, Ghost(leaves@), Ghost(Seq::empty()))
}

/// A Merkle proof of a key's value, or of its absence, in the tree.
#[derive(Clone, Debug)]
pub struct MerkleProof {
    /// The key the proof is about.
    pub key: Address,
    /// The value stored under the key, or none when it is absent.
    pub value_hash: Option<H256>,
    /// The root the proof leads to.
    pub root: H256,
    /// Sibling hashes from the leaf level up (160 of them).
    pub siblings: Vec<H256>,
}

/// The byte strings of a list of hashes.
pub open spec fn hash_seqs(hs: Seq<H256>) -> Seq<Seq<u8>> {
    hs.map_values(|h: H256| h.bytes@)
}

impl MerkleProof {
    /// A proof from its parts.
    pub fn new(key: Address, value_hash: Option<H256>, root: H256, siblings: Vec<H256>) -> (p: Self)
        ensures
            p.key == key,
            p.value_hash == value_hash,
            p.root == root,
            p.siblings@ == siblings@,
    {
        MerkleProof { key, value_hash, root, siblings }
    }

    /// Whether the proof leads from its leaf to its root.
    pub fn verify(&self) -> (r: bool)
        ensures
            r == proof_valid(self.key, self.value_hash, self.root.bytes@, hash_seqs(self.siblings@)),
    {
        let ghost sibs = hash_seqs(self.siblings@);
        if self.siblings.len() != 160 {
            return false;
        }
        let mut current = match &self.value_hash {
            Some(vh) => leaf_hash(&self.key, vh),
            None => empty_leaf(),
        };
        let mut i: usize = 0;
        while i < 160
            invariant
                i <= 160,
                self.siblings@.len() == 160,
                sibs == hash_seqs(self.siblings@),
                current.bytes@ == climb(self.key, proof_leaf(self.key, self.value_hash), sibs, i as nat),
            decreases 160 - i,
        {
            let sibling = &self.siblings[i];
            if get_bit(&self.key, 159 - i) {
                current = internal_hash(sibling, &current);
            } else {
                current = internal_hash(&current, sibling);
            }
            i = i + 1;
        }
        let r = current == self.root;
        proof {
            if current.bytes@ == self.root.bytes@ {
                assert(current.bytes =~= self.root.bytes);
            }
        }
        r
    }
}

/// Sparse Merkle tree over 160-bit keys; only non-empty leaves are stored.
pub struct SparseMerkleTree {
    root: H256,
    leaves: KeyMap<Address, H256>,
    defaults: Vec<H256>,
    depth: usize,
}

impl View for SparseMerkleTree {
    type V = Map<Address, H256>;

    closed spec fn view(&self) -> Map<Address, H256> {
        self.leaves@
    }
}

impl SparseMerkleTree {
    /// The tree's stored root and default hashes are those of its entries.
    pub closed spec fn wf(&self) -> bool {
        &&& self.depth == 160
        &&& defaults_ok(self.defaults@)
        &&& self.root.bytes@ == merkle_root(self.leaves@)
    }

    /// An empty tree.
    pub fn new() -> (t: Self)
        ensures
            t.wf(),
            t@ == Map::<Address, H256>::empty(),
    {
        let defaults = precompute_defaults();
        let leaves: KeyMap<Address, H256> = KeyMap::new();
        let root = compute_root(&defaults, &leaves);
        SparseMerkleTree { root, leaves, defaults, depth: 160 }
    }

    /// Store `value_hash` under `key`.
    pub fn update(&mut self, key: Address, value_hash: H256)
        requires
            old(self).wf(),
        ensures
            final(self).wf(),
            final(self)@ == old(self)@.insert(key, value_hash),
    {
        self.leaves.insert(key, value_hash);
        self.root = compute_root(&self.defaults, &self.leaves);
    }

    /// Remove `key`.
    pub fn delete(&mut self, key: &Address)
        requires
            old(self).wf(),
        ensures
            final(self).wf(),
            final(self)@ == old(self)@.remove(*key),
    {
        self.leaves.remove(key);
        self.root = compute_root(&self.defaults, &self.leaves);
    }

    /// The value stored under `key`.
    pub fn get(&self, key: &Address) -> (r: Option<H256>)
        ensures
            r == lookup(self@, *key),
    {
        match self.leaves.get(key) {
            Some(v) => Some(*v),
            None => None,
        }
    }

    /// The root hash.
    pub fn root(&self) -> (r: H256)
        requires
            self.wf(),
        ensures
            r.bytes@ == merkle_root(self@),
    {
        self.root
    }

    /// A proof of `key`'s value (or absence) against the current root.
    pub fn prove(&self, key: &Address) -> (p: MerkleProof)
        requires
            self.wf(),
        ensures
            p.key == *key,
            p.value_hash == lookup(self@, *key),
            p.root.bytes@ == merkle_root(self@),
            hash_seqs(p.siblings@) == sibling_hashes(self@, *key),
    {
        let value_hash = self.get(key);
        let list = entry_list(&self.leaves);
        proof {
            assert(key_path(*key, 0) =~= Seq::<bool>::empty());
        }
        let top_down = collect_siblings(&self.defaults, key, &list, 0, Ghost(self.leaves@));
        let mut siblings: Vec<H256> = Vec::new();
        let mut i: usize = 0;
        while i < 160
            invariant
                top_down@.len() == 160,
                i <= 160,
                siblings@.len() == i,
                forall|t: int| 0 <= t < i ==> siblings@[t] == top_down@[159 - t],
            decreases 160 - i,
        {
            siblings.push(top_down[159 - i]);
            i = i + 1;
        }
        proof {
            assert(hash_seqs(siblings@) =~= sibling_hashes(self@, *key)) by {
                assert forall|t: int| 0 <= t < 160 implies hash_seqs(siblings@)[t] == sibling_hashes(self@, *key)[t] by {
                    assert(siblings@[t] == top_down@[159 - t]);
                    assert(0 + (159 - t) == 159 - t);
                }
            }
        }
        MerkleProof::new(*key, value_hash, self.root, siblings)
    }
}

impl Default for SparseMerkleTree {
    fn default() -> (t: Self)
        ensures
            t.wf(),
            t@ == Map::<Address, H256>::empty(),
    {
        Self::new()
    }
}

/// The root is a function of the entries: trees with the same entries have
/// the same root, whatever order they were written in.
pub proof fn lemma_root_of_entries(a: Map<Address, H256>, b: Map<Address, H256>)
    requires
        a == b,
    ensures
        merkle_root(a) == merkle_root(b),
{
}

/// Deleting a key that was just added to a tree without it restores the
/// tree's root.
pub proof fn lemma_delete_restores_root(m: Map<Address, H256>, key: Address, value: H256)
    requires
        !m.contains_key(key),
    ensures
        merkle_root(m.insert(key, value).remove(key)) == merkle_root(m),
{
    assert(m.insert(key, value).remove(key) =~= m);
}

} // verus!
