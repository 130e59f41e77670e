use aether::merkle::{address_to_bits, empty_leaf, internal_hash, leaf_hash, MerkleProof, SparseMerkleTree};
use aether::types::{Address, H256};

#[test]
fn test_address_to_bits_length() {
    let addr = Address::from_bytes([0u8; 20]);
    let bits = address_to_bits(&addr);
    assert_eq!(bits.len(), 160);
}

#[test]
fn test_address_to_bits_values() {
    let mut bytes = [0u8; 20];
    bytes[0] = 0b10110000;
    let addr = Address::from_bytes(bytes);
    let bits = address_to_bits(&addr);
    assert!(bits[0]);
    assert!(!bits[1]);
    assert!(bits[2]);
    assert!(bits[3]);
}

#[test]
fn test_leaf_hash_deterministic() {
    let addr = Address::from_bytes([1u8; 20]);
    let value = H256::from_bytes([2u8; 32]);
    let h1 = leaf_hash(&addr, &value);
    let h2 = leaf_hash(&addr, &value);
    assert_eq!(h1, h2);
}

#[test]
fn test_internal_hash_deterministic() {
    let left = H256::from_bytes([1u8; 32]);
    let right = H256::from_bytes([2u8; 32]);
    assert_eq!(internal_hash(&left, &right), internal_hash(&left, &right));
}

#[test]
fn test_internal_hash_order_matters() {
    let left = H256::from_bytes([1u8; 32]);
    let right = H256::from_bytes([2u8; 32]);
    assert_ne!(internal_hash(&left, &right), internal_hash(&right, &left));
}

#[test]
fn empty_leaf_is_sha256_of_zero_byte() {
    let expected: [u8; 32] = [
        0x6e, 0x34, 0x0b, 0x9c, 0xff, 0xb3, 0x7a, 0x98, 0x9c, 0xa5, 0x44, 0xe6, 0xbb, 0x78, 0x0a, 0x2c, 0x78, 0x90,
        0x1d, 0x3f, 0xb3, 0x37, 0x38, 0x76, 0x85, 0x11, 0xa3, 0x06, 0x17, 0xaf, 0xa0, 0x1d,
    ];
    assert_eq!(empty_leaf(), H256::from_bytes(expected));
}

#[test]
fn test_empty_tree() {
    let tree = SparseMerkleTree::new();
    assert_ne!(tree.root(), H256::zero());
}

#[test]
fn test_update_and_get() {
    let mut tree = SparseMerkleTree::new();
    let addr = Address::from_bytes([1u8; 20]);
    let value = H256::from_bytes([2u8; 32]);
    tree.update(addr, value);
    assert_eq!(tree.get(&addr), Some(value));
}

#[test]
fn test_root_changes_on_update() {
    let mut tree = SparseMerkleTree::new();
    let root1 = tree.root();
    tree.update(Address::from_bytes([1u8; 20]), H256::from_bytes([2u8; 32]));
    assert_ne!(root1, tree.root());
}

#[test]
fn test_deterministic_root() {
    let mut t1 = SparseMerkleTree::new();
    let mut t2 = SparseMerkleTree::new();
    let addr = Address::from_bytes([1u8; 20]);
    let val = H256::from_bytes([2u8; 32]);
    t1.update(addr, val);
    t2.update(addr, val);
    assert_eq!(t1.root(), t2.root());
}

#[test]
fn test_different_values_different_roots() {
    let mut t1 = SparseMerkleTree::new();
    let mut t2 = SparseMerkleTree::new();
    let addr = Address::from_bytes([1u8; 20]);
    t1.update(addr, H256::from_bytes([1u8; 32]));
    t2.update(addr, H256::from_bytes([2u8; 32]));
    assert_ne!(t1.root(), t2.root());
}

#[test]
fn test_delete_restores_root() {
    let mut tree = SparseMerkleTree::new();
    let empty_root = tree.root();
    let addr = Address::from_bytes([1u8; 20]);
    tree.update(addr, H256::from_bytes([2u8; 32]));
    tree.delete(&addr);
    assert_eq!(tree.root(), empty_root);
}

#[test]
fn test_proof_verification_inclusion() {
    let mut tree = SparseMerkleTree::new();
    let addr = Address::from_bytes([1u8; 20]);
    let value = H256::from_bytes([2u8; 32]);
    tree.update(addr, value);
    let proof = tree.prove(&addr);
    assert!(proof.verify(), "inclusion proof must verify");
    assert_eq!(proof.value_hash, Some(value));
}

#[test]
fn test_proof_verification_exclusion() {
    let mut tree = SparseMerkleTree::new();
    tree.update(Address::from_bytes([1u8; 20]), H256::from_bytes([2u8; 32]));
    let addr2 = Address::from_bytes([3u8; 20]);
    let proof = tree.prove(&addr2);
    assert!(proof.verify(), "exclusion proof must verify");
    assert_eq!(proof.value_hash, None);
}

#[test]
fn test_proof_fails_with_wrong_root() {
    let mut tree = SparseMerkleTree::new();
    let addr = Address::from_bytes([1u8; 20]);
    tree.update(addr, H256::from_bytes([2u8; 32]));
    let mut proof = tree.prove(&addr);
    proof.root = H256::from_bytes([99u8; 32]);
    assert!(!proof.verify());
}

#[test]
fn test_proof_fails_with_tampered_sibling() {
    let mut tree = SparseMerkleTree::new();
    let addr = Address::from_bytes([1u8; 20]);
    tree.update(addr, H256::from_bytes([2u8; 32]));
    let mut proof = tree.prove(&addr);
    proof.siblings[0] = H256::from_bytes([99u8; 32]);
    assert!(!proof.verify());
}

#[test]
fn test_multiple_keys() {
    let mut tree = SparseMerkleTree::new();
    for i in 0u8..10 {
        let mut ab = [0u8; 20];
        ab[0] = i;
        let mut vb = [0u8; 32];
        vb[0] = i + 100;
        tree.update(Address::from_bytes(ab), H256::from_bytes(vb));
    }
    for i in 0u8..10 {
        let mut ab = [0u8; 20];
        ab[0] = i;
        let proof = tree.prove(&Address::from_bytes(ab));
        assert!(proof.verify(), "proof for key {} must verify", i);
    }
}

#[test]
fn test_order_independence() {
    let mut t1 = SparseMerkleTree::new();
    let mut t2 = SparseMerkleTree::new();
    let a = Address::from_bytes([1u8; 20]);
    let b = Address::from_bytes([2u8; 20]);
    let va = H256::from_bytes([10u8; 32]);
    let vb = H256::from_bytes([20u8; 32]);
    t1.update(a, va);
    t1.update(b, vb);
    t2.update(b, vb);
    t2.update(a, va);
    assert_eq!(t1.root(), t2.root());
}

#[test]
fn test_batch_updates_consistent() {
    let mut tree = SparseMerkleTree::new();
    for i in 0u8..5 {
        let mut ab = [0u8; 20];
        ab[0] = i;
        tree.update(Address::from_bytes(ab), H256::from_bytes([i + 10; 32]));
    }
    let root = tree.root();
    assert_ne!(root, SparseMerkleTree::new().root());
    assert_eq!(tree.root(), root);
}

#[test]
fn proof_with_wrong_value_fails() {
    let mut tree = SparseMerkleTree::new();
    let addr = Address::from_bytes([4u8; 20]);
    tree.update(addr, H256::from_bytes([5u8; 32]));
    let proof = tree.prove(&addr);
    let forged = MerkleProof::new(addr, Some(H256::from_bytes([6u8; 32])), proof.root, proof.siblings.clone());
    assert!(!forged.verify());
    let absent = MerkleProof::new(addr, None, proof.root, proof.siblings);
    assert!(!absent.verify());
}

#[test]
fn proof_with_short_sibling_list_fails() {
    let tree = SparseMerkleTree::new();
    let addr = Address::from_bytes([4u8; 20]);
    let mut proof = tree.prove(&addr);
    assert_eq!(proof.siblings.len(), 160);
    proof.siblings.pop();
    assert!(!proof.verify());
}
