use aether::scheduler::{ParallelScheduler, TxAccess, UtxoId};
use aether::types::{Address, H256};

fn create_test_tx(reads: Vec<u8>, writes: Vec<u8>) -> TxAccess {
    TxAccess {
        reads: reads.iter().map(|&b| Address::from_bytes([b; 20])).collect(),
        writes: writes.iter().map(|&b| Address::from_bytes([b; 20])).collect(),
        inputs: vec![],
    }
}

#[test]
fn test_non_conflicting_transactions() {
    let scheduler = ParallelScheduler::new();
    let tx1 = create_test_tx(vec![], vec![1]);
    let tx2 = create_test_tx(vec![], vec![2]);
    let tx3 = create_test_tx(vec![], vec![3]);
    let batches = scheduler.schedule(&[tx1, tx2, tx3]);
    assert_eq!(batches.len(), 1);
    assert_eq!(batches[0].len(), 3);
}

#[test]
fn test_conflicting_transactions() {
    let scheduler = ParallelScheduler::new();
    let tx1 = create_test_tx(vec![], vec![1]);
    let tx2 = create_test_tx(vec![], vec![1]);
    let batches = scheduler.schedule(&[tx1, tx2]);
    assert_eq!(batches.len(), 2);
    assert_eq!(batches[0].len(), 1);
    assert_eq!(batches[1].len(), 1);
}

#[test]
fn test_read_write_conflict() {
    let scheduler = ParallelScheduler::new();
    let tx1 = create_test_tx(vec![], vec![1]);
    let tx2 = create_test_tx(vec![1], vec![]);
    let batches = scheduler.schedule(&[tx1, tx2]);
    assert_eq!(batches.len(), 2);
}

#[test]
fn test_complex_dependencies() {
    let scheduler = ParallelScheduler::new();
    let tx1 = create_test_tx(vec![], vec![1]);
    let tx2 = create_test_tx(vec![], vec![2]);
    let tx3 = create_test_tx(vec![1], vec![3]);
    let tx4 = create_test_tx(vec![2], vec![4]);
    let tx5 = create_test_tx(vec![3, 4], vec![5]);
    let batches = scheduler.schedule(&[tx1, tx2, tx3, tx4, tx5]);
    assert!(batches.len() >= 3);
    assert!(batches[0].len() >= 2);
}

#[test]
fn test_empty_schedule() {
    let scheduler = ParallelScheduler::new();
    let batches = scheduler.schedule(&[]);
    assert_eq!(batches.len(), 0);
}

#[test]
fn complex_dependencies_exact_batches() {
    let scheduler = ParallelScheduler::new();
    let txs = [
        create_test_tx(vec![], vec![1]),
        create_test_tx(vec![], vec![2]),
        create_test_tx(vec![1], vec![3]),
        create_test_tx(vec![2], vec![4]),
        create_test_tx(vec![3, 4], vec![5]),
    ];
    assert_eq!(scheduler.schedule(&txs), vec![vec![0, 1], vec![2, 3], vec![4]]);
}

#[test]
fn shared_utxo_inputs_conflict() {
    let input = UtxoId { tx_hash: H256::repeat_byte(7), output_index: 0 };
    let a = TxAccess { reads: vec![], writes: vec![], inputs: vec![input] };
    let b = TxAccess { reads: vec![], writes: vec![], inputs: vec![input] };
    assert!(a.conflicts_with(&b));
    let scheduler = ParallelScheduler::new();
    assert_eq!(scheduler.schedule(&[a, b]), vec![vec![0], vec![1]]);
}

#[test]
fn write_after_read_waits_for_reader() {
    let scheduler = ParallelScheduler::new();
    let reader = create_test_tx(vec![9], vec![]);
    let writer = create_test_tx(vec![], vec![9]);
    assert!(writer.depends_on(&reader));
    assert_eq!(scheduler.schedule(&[reader, writer]), vec![vec![0], vec![1]]);
}
