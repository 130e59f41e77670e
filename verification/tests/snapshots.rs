use aether::merkle::SparseMerkleTree;
use aether::snapshots::{
    compress, decompress, import_batch, is_snapshot_file, parse_snapshot_filename, prune_count, snapshot_filename,
    snapshots_to_prune, sort_heights,
};
use aether::storage::BatchOperation;
use aether::types::{Address, H256};

#[test]
fn test_compress_decompress_roundtrip() {
    let data = b"hello world, this is a test of zstd compression!";
    let compressed = compress(data).unwrap();
    let decompressed = decompress(&compressed).unwrap();
    assert_eq!(decompressed, data);
}

#[test]
fn test_compression_reduces_size() {
    let data = vec![0xABu8; 10_000];
    let compressed = compress(&data).unwrap();
    assert!(compressed.len() < data.len() / 2, "compressed {} bytes to {} bytes", data.len(), compressed.len());
}

#[test]
fn test_empty_data() {
    let compressed = compress(b"").unwrap();
    let decompressed = decompress(&compressed).unwrap();
    assert!(decompressed.is_empty());
}

#[test]
fn compressed_bytes_differ_from_input() {
    let data = vec![7u8; 1000];
    assert_ne!(compress(&data).unwrap(), data);
}

#[test]
fn decompress_rejects_garbage() {
    assert!(decompress(b"not zstd at all").is_err());
}

#[test]
fn snapshot_filenames() {
    assert_eq!(snapshot_filename(100), "snapshot_0000000100.bin.zst");
    assert_eq!(snapshot_filename(0), "snapshot_0000000000.bin.zst");
    assert_eq!(snapshot_filename(12345678901), "snapshot_12345678901.bin.zst");
    assert_eq!(parse_snapshot_filename("snapshot_0000000100.bin.zst"), Some(100));
    assert_eq!(parse_snapshot_filename(&snapshot_filename(u64::MAX)), Some(u64::MAX));
    assert_eq!(parse_snapshot_filename("snapshot_abc.bin.zst"), None);
    assert_eq!(parse_snapshot_filename("other_0000000100.bin.zst"), None);
    assert!(is_snapshot_file("snapshot_0000000100.bin.zst"));
    assert!(!is_snapshot_file("snapshot_0000000100.bin"));
}

#[test]
fn heights_sort_and_prune() {
    assert_eq!(sort_heights(&vec![30, 10, 20, 10]), vec![10, 10, 20, 30]);
    assert_eq!(prune_count(5, 3), 2);
    assert_eq!(prune_count(2, 3), 0);
}

#[test]
fn import_rejects_zero_root() {
    let r = import_batch(&H256::zero(), 1, &[], &[]);
    assert_eq!(r.unwrap_err(), "snapshot has zero state root — likely corrupted");
}

#[test]
fn import_checks_merkle_root() {
    let accounts = vec![(Address::from_bytes([1u8; 20]), b"account-one".to_vec())];
    let wrong = H256::repeat_byte(3);
    let err = import_batch(&wrong, 7, &accounts, &[]).unwrap_err();
    assert!(err.starts_with("snapshot Merkle root mismatch: claimed 0x0303"), "{err}");

    let mut tree = SparseMerkleTree::new();
    let mut digest = [0u8; 32];
    {
        let mut host = aether::runtime::HostFunctions::new(
            aether::runtime::MockRuntimeState::new(),
            1_000_000,
            0,
            0,
            Address::from_bytes([0; 20]),
            Address::from_bytes([0; 20]),
        );
        digest.copy_from_slice(host.sha256(b"account-one").unwrap().as_bytes());
    }
    tree.update(Address::from_bytes([1u8; 20]), H256::from_bytes(digest));
    let root = tree.root();
    let utxos = vec![(b"u1".to_vec(), b"out".to_vec())];
    let batch = import_batch(&root, 7, &accounts, &utxos).unwrap();
    let ops = batch.operations();
    assert_eq!(ops.len(), 4);
    match &ops[0] {
        BatchOperation::Put { cf, key, value } => {
            assert_eq!(cf, "accounts");
            assert_eq!(key, &vec![1u8; 20]);
            assert_eq!(value, &b"account-one".to_vec());
        }
        _ => panic!("expected a put"),
    }
    match &ops[3] {
        BatchOperation::Put { cf, key, value } => {
            assert_eq!(cf, "metadata");
            assert_eq!(key, &b"snapshot_height".to_vec());
            assert_eq!(value, &7u64.to_be_bytes().to_vec());
        }
        _ => panic!("expected a put"),
    }
}

#[test]
fn prune_picks_the_oldest_snapshot_files() {
    let names: Vec<String> = vec![
        snapshot_filename(300),
        "notes.txt".to_string(),
        snapshot_filename(100),
        ".tmp_snapshot_400.bin.zst".to_string(),
        snapshot_filename(200),
        snapshot_filename(400),
    ];
    assert_eq!(snapshots_to_prune(&names, 2), vec![snapshot_filename(100), snapshot_filename(200)]);
    assert_eq!(snapshots_to_prune(&names, 4), Vec::<String>::new());
    assert_eq!(snapshots_to_prune(&names, 0).len(), 4);
    // Names sort by their bytes, as paths do.
    let odd = vec!["snapshot_9.bin.zst".to_string(), "snapshot_10.bin.zst".to_string()];
    assert_eq!(snapshots_to_prune(&odd, 1), vec!["snapshot_10.bin.zst".to_string()]);
}
