use aether::storage::{
    add_block_pruning, be_u64, block_index_prunable, parse_slot_key, plan_spent_utxo_pruning, BatchOperation,
    StorageBatch, CF_BLOCKS, CF_METADATA, CF_RECEIPTS, CF_SPENT_UTXOS,
};

fn delete_keys(batch: &StorageBatch, cf_expected: &str) -> Vec<Vec<u8>> {
    batch
        .operations()
        .iter()
        .map(|op| match op {
            BatchOperation::Delete { cf, key } => {
                assert_eq!(cf, cf_expected);
                key.clone()
            }
            BatchOperation::Put { .. } => panic!("unexpected put"),
        })
        .collect()
}

#[test]
fn test_prune_spent_utxos() {
    let keys: Vec<Vec<u8>> = (0u64..10)
        .map(|slot| {
            let mut key = slot.to_be_bytes().to_vec();
            key.extend_from_slice(&[slot as u8; 16]);
            key
        })
        .collect();
    let (batch, pruned) = plan_spent_utxo_pruning(&keys, 5);
    assert_eq!(pruned, 5);
    assert_eq!(delete_keys(&batch, CF_SPENT_UTXOS), keys[..5].to_vec());
}

#[test]
fn test_prune_spent_utxos_empty() {
    let (batch, pruned) = plan_spent_utxo_pruning(&[], 100);
    assert_eq!(pruned, 0);
    assert_eq!(batch.len(), 0);
}

#[test]
fn short_spent_keys_are_skipped() {
    let keys = vec![vec![1u8, 2], 3u64.to_be_bytes().to_vec(), 9u64.to_be_bytes().to_vec()];
    let (batch, pruned) = plan_spent_utxo_pruning(&keys, 5);
    assert_eq!(pruned, 1);
    assert_eq!(delete_keys(&batch, CF_SPENT_UTXOS), vec![3u64.to_be_bytes().to_vec()]);
}

#[test]
fn big_endian_values() {
    assert_eq!(be_u64(&[0, 0, 0, 0, 0, 0, 1, 2]), 258);
    assert_eq!(be_u64(&u64::MAX.to_be_bytes()), u64::MAX);
}

#[test]
fn slot_keys() {
    assert_eq!(parse_slot_key(b"slot:42"), Some(42));
    assert_eq!(parse_slot_key(b"slot:"), None);
    assert_eq!(parse_slot_key(b"slot:4x"), None);
    assert_eq!(parse_slot_key(b"state_root"), None);
    assert_eq!(parse_slot_key(b"slot:18446744073709551616"), None);
    assert!(block_index_prunable(b"slot:3", 5));
    assert!(!block_index_prunable(b"slot:5", 5));
    assert!(!block_index_prunable(b"latest", 5));
}

#[test]
fn block_pruning_batch_order() {
    let mut batch = StorageBatch::new();
    add_block_pruning(&mut batch, b"slot:3", b"blockhash", &[b"tx1".to_vec(), b"tx2".to_vec()]);
    let ops: Vec<(String, Vec<u8>)> = batch
        .operations()
        .iter()
        .map(|op| match op {
            BatchOperation::Delete { cf, key } => (cf.clone(), key.clone()),
            BatchOperation::Put { .. } => panic!("unexpected put"),
        })
        .collect();
    assert_eq!(
        ops,
        vec![
            (CF_BLOCKS.to_string(), b"blockhash".to_vec()),
            (CF_RECEIPTS.to_string(), b"tx1".to_vec()),
            (CF_RECEIPTS.to_string(), b"tx2".to_vec()),
            (CF_METADATA.to_string(), b"slot:3".to_vec()),
        ]
    );
}

#[test]
fn batch_put_delete_extend() {
    let mut a = StorageBatch::new();
    a.put("accounts", b"k".to_vec(), b"v".to_vec());
    let mut b = StorageBatch::new();
    b.delete("accounts", b"k".to_vec());
    a.extend(b);
    assert_eq!(a.len(), 2);
    assert!(matches!(&a.operations()[0], BatchOperation::Put { .. }));
    assert!(matches!(&a.operations()[1], BatchOperation::Delete { .. }));
}

#[test]
fn test_pruning_blocks_and_receipts() {
    let index: Vec<(String, Vec<u8>)> = (0u64..10).map(|slot| (format!("slot:{slot}"), vec![slot as u8; 32])).collect();
    let mut batch = StorageBatch::new();
    let mut pruned = 0;
    for (key, hash) in &index {
        if block_index_prunable(key.as_bytes(), 5) {
            add_block_pruning(&mut batch, key.as_bytes(), hash, &[]);
            pruned += 1;
        }
    }
    assert_eq!(pruned, 5);
    let deleted: Vec<(String, Vec<u8>)> = batch
        .operations()
        .iter()
        .map(|op| match op {
            BatchOperation::Delete { cf, key } => (cf.clone(), key.clone()),
            BatchOperation::Put { .. } => panic!("unexpected put"),
        })
        .collect();
    for slot in 0..5usize {
        assert!(deleted.contains(&(CF_BLOCKS.to_string(), index[slot].1.clone())));
        assert!(deleted.contains(&(CF_METADATA.to_string(), index[slot].0.as_bytes().to_vec())));
    }
    for slot in 5..10usize {
        assert!(!deleted.iter().any(|(_, k)| k == &index[slot].1));
    }
}
