use aether::rollup::{
    FraudProof, FraudProofResult, FraudProofVerifier, L2Batch, ReExecutor, StateCommitment,
    CHALLENGE_WINDOW_SLOTS,
};
use aether::types::{Address, H256};

fn addr(byte: u8) -> Address {
    Address::from_bytes([byte; 20])
}

fn root(byte: u8) -> H256 {
    H256::from_bytes([byte; 32])
}

fn make_fraud_proof() -> FraudProof {
    FraudProof {
        batch_id: 1,
        tx_index: 5,
        pre_state_root: root(1),
        correct_post_state_root: root(2),
        claimed_post_state_root: root(3),
        challenger: addr(10),
        state_proof: vec![0u8; 32],
        tx_data: vec![1, 2, 3],
    }
}

struct MockExecutor {
    result: Result<H256, String>,
}

impl ReExecutor for MockExecutor {
    fn re_execute(&self, _pre: &H256, _tx: &[u8]) -> Result<H256, String> {
        self.result.clone()
    }
}

fn run(verifier: &FraudProofVerifier, proof: &FraudProof, pre: &H256, bond: u128, executor: &MockExecutor) -> FraudProofResult {
    verifier.verify(proof, pre, &proof.claimed_post_state_root, &addr(1), 1_000_000, bond, executor)
}

#[test]
fn test_new_rejects_reward_over_100() {
    assert!(FraudProofVerifier::new(1_000, 101).is_err());
    assert!(FraudProofVerifier::new(1_000, 100).is_ok());
}

#[test]
fn test_valid_fraud_proof() {
    let verifier = FraudProofVerifier::new(1_000_000, 50).unwrap();
    let proof = make_fraud_proof();
    let executor = MockExecutor { result: Ok(proof.correct_post_state_root) };
    let result = run(&verifier, &proof, &proof.pre_state_root, 1_000_000, &executor);
    match result {
        FraudProofResult::Valid { challenger_reward, .. } => {
            assert_eq!(challenger_reward, 500_000);
        }
        other => panic!("expected Valid, got {:?}", other),
    }
}

#[test]
fn test_reject_insufficient_challenger_bond() {
    let verifier = FraudProofVerifier::new(1_000_000, 50).unwrap();
    let proof = make_fraud_proof();
    let executor = MockExecutor { result: Ok(proof.correct_post_state_root) };
    let result = run(&verifier, &proof, &proof.pre_state_root, 500_000, &executor);
    assert!(matches!(result, FraudProofResult::Invalid { .. }));
}

#[test]
fn test_reject_pre_state_mismatch() {
    let verifier = FraudProofVerifier::new(1_000_000, 50).unwrap();
    let proof = make_fraud_proof();
    let executor = MockExecutor { result: Ok(proof.correct_post_state_root) };
    let result = run(&verifier, &proof, &root(99), 1_000_000, &executor);
    assert!(matches!(result, FraudProofResult::Invalid { .. }));
}

#[test]
fn test_reject_no_fraud() {
    let verifier = FraudProofVerifier::new(1_000_000, 50).unwrap();
    let mut proof = make_fraud_proof();
    proof.correct_post_state_root = proof.claimed_post_state_root;
    let executor = MockExecutor { result: Ok(proof.correct_post_state_root) };
    let result = run(&verifier, &proof, &proof.pre_state_root, 1_000_000, &executor);
    assert!(matches!(result, FraudProofResult::Invalid { .. }));
}

#[test]
fn test_reject_fabricated_correct_state_root() {
    let verifier = FraudProofVerifier::new(1_000_000, 50).unwrap();
    let proof = make_fraud_proof();
    let executor = MockExecutor { result: Ok(root(9)) };
    let result = run(&verifier, &proof, &proof.pre_state_root, 1_000_000, &executor);
    assert!(matches!(result, FraudProofResult::Invalid { reason } if
        reason.contains("re-executed post-state root does not match challenger's claim")));
}

#[test]
fn test_reject_re_execution_failure() {
    let verifier = FraudProofVerifier::new(1_000_000, 50).unwrap();
    let proof = make_fraud_proof();
    let executor = MockExecutor { result: Err("vm fault: out of gas".into()) };
    let result = run(&verifier, &proof, &proof.pre_state_root, 1_000_000, &executor);
    assert!(matches!(result, FraudProofResult::Invalid { .. }));
}

#[test]
fn test_fraud_proof_hash_deterministic() {
    let proof = make_fraud_proof();
    assert_eq!(proof.hash(), proof.hash());
}

#[test]
fn re_execution_failure_reason_is_reported() {
    let verifier = FraudProofVerifier::new(1_000_000, 50).unwrap();
    let proof = make_fraud_proof();
    let result = verifier.verify_with(
        &proof,
        &proof.pre_state_root,
        &proof.claimed_post_state_root,
        &addr(1),
        1_000_000,
        1_000_000,
        Err("vm fault".to_string()),
    );
    assert_eq!(result, FraudProofResult::Invalid { reason: "re-execution failed: vm fault".to_string() });
}

#[test]
fn reward_saturates_on_huge_bond() {
    let verifier = FraudProofVerifier::new(0, 100).unwrap();
    let proof = make_fraud_proof();
    let result = verifier.verify_with(
        &proof,
        &proof.pre_state_root,
        &proof.claimed_post_state_root,
        &addr(7),
        u128::MAX,
        0,
        Ok(proof.correct_post_state_root),
    );
    assert_eq!(result, FraudProofResult::Valid { slashed_sequencer: addr(7), challenger_reward: u128::MAX / 100 });
}

#[test]
fn fraud_proof_hash_depends_on_contents() {
    let a = make_fraud_proof();
    let mut b = make_fraud_proof();
    b.tx_index = 6;
    assert_ne!(a.hash(), b.hash());
}

fn make_batch(id: u64) -> L2Batch {
    L2Batch {
        batch_id: id,
        chain_id: 1,
        sequencer: Address::from_bytes([1u8; 20]),
        pre_state_root: H256::from_bytes([id as u8; 32]),
        post_state_root: H256::from_bytes([(id + 1) as u8; 32]),
        tx_hashes: vec![H256::zero()],
        l1_slot: 1000,
    }
}

#[test]
fn test_batch_hash_deterministic() {
    let batch = make_batch(1);
    assert_eq!(batch.hash(), batch.hash());
}

#[test]
fn test_commitment_challenge_window() {
    let commitment = StateCommitment::new(make_batch(1), 1000);
    assert!(!commitment.is_past_challenge_window(1000));
    assert!(!commitment.is_past_challenge_window(1000 + CHALLENGE_WINDOW_SLOTS));
    assert!(commitment.is_past_challenge_window(1000 + CHALLENGE_WINDOW_SLOTS + 1));
}

#[test]
fn test_finalize_after_window() {
    let mut commitment = StateCommitment::new(make_batch(1), 1000);
    let after_window = 1000 + CHALLENGE_WINDOW_SLOTS + 1;
    assert!(commitment.try_finalize(1500).is_err());
    assert!(commitment.try_finalize(after_window).is_ok());
    assert!(commitment.finalized);
}

#[test]
fn challenge_deadline_saturates_near_max_slot() {
    let commitment = StateCommitment::new(make_batch(1), u64::MAX - 100);
    assert_eq!(commitment.challenge_deadline, u64::MAX);
    assert!(!commitment.is_past_challenge_window(u64::MAX - 50));
}

#[test]
fn test_cannot_finalize_challenged() {
    let mut commitment = StateCommitment::new(make_batch(1), 1000);
    commitment.challenged = true;
    let after = 1000 + CHALLENGE_WINDOW_SLOTS + 1;
    assert!(commitment.try_finalize(after).is_err());
    assert!(!commitment.finalized);
}

#[test]
fn batch_hash_depends_on_tx_hashes() {
    let a = make_batch(1);
    let mut b = make_batch(1);
    b.tx_hashes.push(H256::repeat_byte(5));
    assert_ne!(a.hash(), b.hash());
}
