use aether::account::{AccountValidator, EntryPoint, UserOperation};
use aether::types::{Address, H256};

struct AcceptAll;
impl AccountValidator for AcceptAll {
    fn validate_signature(&self, _: &Address, _: &H256, _: &[u8]) -> Result<(), String> {
        Ok(())
    }
}

struct RejectAll;
impl AccountValidator for RejectAll {
    fn validate_signature(&self, _: &Address, _: &H256, _: &[u8]) -> Result<(), String> {
        Err("invalid signature".to_string())
    }
}

fn make_user_op(sender_byte: u8) -> UserOperation {
    UserOperation {
        sender: Address::repeat_byte(sender_byte),
        nonce: 0,
        call_data: vec![1, 2, 3],
        call_gas_limit: 100_000,
        verification_gas_limit: 50_000,
        pre_verification_gas: 10_000,
        max_fee_per_gas: 100,
        paymaster: None,
        paymaster_data: vec![],
        signature: vec![0u8; 64],
    }
}

#[test]
fn test_user_op_validation() {
    let op = make_user_op(1);
    assert!(op.validate().is_ok());
}

#[test]
fn test_reject_empty_signature() {
    let mut op = make_user_op(1);
    op.signature = vec![];
    assert!(op.validate().is_err());
}

#[test]
fn test_user_op_hash_deterministic() {
    let op = make_user_op(1);
    assert_eq!(op.hash(), op.hash());
}

#[test]
fn test_user_op_hash_excludes_signature() {
    let mut op1 = make_user_op(1);
    let mut op2 = make_user_op(1);
    op1.signature = vec![1; 64];
    op2.signature = vec![2; 64];
    assert_eq!(op1.hash(), op2.hash(), "hash must not depend on signature");
}

#[test]
fn test_entrypoint_validates_registered_account() {
    let mut ep = EntryPoint::new();
    let sender = Address::repeat_byte(1);
    ep.register_account(sender, H256::repeat_byte(2));
    let op = make_user_op(1);
    assert!(ep.validate_user_op(&op, &AcceptAll).is_ok());
}

#[test]
fn test_entrypoint_rejects_unregistered_account() {
    let ep = EntryPoint::new();
    let op = make_user_op(1);
    assert!(ep.validate_user_op(&op, &AcceptAll).is_err());
}

#[test]
fn test_entrypoint_rejects_invalid_signature() {
    let mut ep = EntryPoint::new();
    let sender = Address::repeat_byte(1);
    ep.register_account(sender, H256::zero());
    let op = make_user_op(1);
    let result = ep.validate_user_op(&op, &RejectAll);
    assert!(result.is_err());
    assert!(result.unwrap_err().contains("invalid signature"));
}

#[test]
fn test_paymaster_sponsorship() {
    let mut ep = EntryPoint::new();
    let sender = Address::repeat_byte(1);
    let paymaster = Address::repeat_byte(2);
    ep.register_account(sender, H256::zero());
    ep.register_paymaster(paymaster, 100_000_000);
    let mut op = make_user_op(1);
    op.paymaster = Some(paymaster);
    assert!(ep.validate_user_op(&op, &AcceptAll).is_ok());
}

#[test]
fn test_paymaster_insufficient_deposit() {
    let mut ep = EntryPoint::new();
    let sender = Address::repeat_byte(1);
    let paymaster = Address::repeat_byte(2);
    ep.register_account(sender, H256::zero());
    ep.register_paymaster(paymaster, 1);
    let mut op = make_user_op(1);
    op.paymaster = Some(paymaster);
    assert!(ep.validate_user_op(&op, &AcceptAll).is_err());
}

#[test]
fn test_handle_ops_batch() {
    let mut ep = EntryPoint::new();
    ep.register_account(Address::repeat_byte(1), H256::zero());
    ep.register_account(Address::repeat_byte(2), H256::zero());
    let ops = vec![make_user_op(1), make_user_op(2)];
    let results = ep.handle_ops(&ops, &AcceptAll).unwrap();
    assert_eq!(results.len(), 2);
    assert!(results[0].success);
    assert!(results[1].success);
}

#[test]
fn test_handle_ops_rejects_bad_signature() {
    let mut ep = EntryPoint::new();
    ep.register_account(Address::repeat_byte(1), H256::zero());
    let ops = vec![make_user_op(1)];
    let results = ep.handle_ops(&ops, &RejectAll).unwrap();
    assert_eq!(results.len(), 1);
    assert!(!results[0].success);
    assert!(results[0].error.as_ref().unwrap().contains("signature"));
}

#[test]
fn test_total_gas() {
    let op = make_user_op(1);
    assert_eq!(op.total_gas(), 100_000 + 50_000 + 10_000);
}

#[test]
fn test_total_gas_saturates() {
    let mut op = make_user_op(1);
    op.call_gas_limit = u64::MAX;
    op.verification_gas_limit = 1;
    assert_eq!(op.total_gas(), u64::MAX);
}

#[test]
fn user_op_hash_is_sha256_of_preimage() {
    let op = make_user_op(7);
    let pre = op.preimage();
    // sender, nonce, call data with its length, three gas limits, fee cap,
    // paymaster presence byte, paymaster data with its length
    assert_eq!(pre.len(), 20 + 8 + 8 + 3 + 8 + 8 + 8 + 16 + 1 + 8);
    assert_eq!(&pre[0..20], &[7u8; 20]);
    assert_eq!(&pre[20..28], &0u64.to_le_bytes());
    assert_eq!(&pre[28..36], &3u64.to_le_bytes());
    assert_eq!(&pre[36..39], &[1, 2, 3]);
    assert_eq!(&pre[39..47], &100_000u64.to_le_bytes());
    assert_eq!(&pre[63..79], &100u128.to_le_bytes());
    assert_eq!(pre[79], 0);
    assert_eq!(&pre[80..88], &0u64.to_le_bytes());
    assert_ne!(op.hash(), H256::zero());
    let mut other = make_user_op(7);
    other.nonce = 1;
    assert_ne!(op.hash(), other.hash());
}

#[test]
fn replayed_nonce_is_rejected() {
    let mut ep = EntryPoint::new();
    let sender = Address::repeat_byte(9);
    ep.register_account(sender, H256::zero());
    let op = make_user_op(9);
    let r1 = ep.handle_ops(std::slice::from_ref(&op), &AcceptAll).unwrap();
    assert!(r1[0].success);
    assert_eq!(r1[0].gas_used, 100_000);
    let r2 = ep.handle_ops(std::slice::from_ref(&op), &AcceptAll).unwrap();
    assert!(!r2[0].success);
    assert_eq!(r2[0].gas_used, 50_000);
    assert_eq!(r2[0].error.as_deref(), Some("invalid nonce: expected 1, got 0"));
}

#[test]
fn sequential_nonces_all_succeed() {
    let mut ep = EntryPoint::new();
    ep.register_account(Address::repeat_byte(1), H256::zero());
    let ops: Vec<UserOperation> = (0u64..5)
        .map(|n| {
            let mut op = make_user_op(1);
            op.nonce = n;
            op
        })
        .collect();
    let results = ep.handle_ops(&ops, &AcceptAll).unwrap();
    assert_eq!(results.len(), 5);
    assert!(results.iter().all(|r| r.success));
}

#[test]
fn paymaster_deposit_is_charged() {
    let mut ep = EntryPoint::new();
    let sender = Address::repeat_byte(1);
    let paymaster = Address::repeat_byte(2);
    ep.register_account(sender, H256::zero());
    let mut op = make_user_op(1);
    op.paymaster = Some(paymaster);
    // cost = 160_000 gas * 100 per gas
    assert_eq!(op.gas_cost(), 16_000_000);
    ep.register_paymaster(paymaster, 16_000_001);
    let r = ep.handle_ops(std::slice::from_ref(&op), &AcceptAll).unwrap();
    assert!(r[0].success);
    // the remaining deposit (1) no longer covers a second operation
    let mut op2 = op.clone();
    op2.nonce = 1;
    let err = ep.validate_user_op(&op2, &AcceptAll).unwrap_err();
    assert_eq!(err, "paymaster deposit 1 insufficient for gas cost 16000000");
}

#[test]
fn unregistered_sender_message_names_sender() {
    let ep = EntryPoint::new();
    let op = make_user_op(0xab);
    let err = ep.validate_user_op(&op, &AcceptAll).unwrap_err();
    assert_eq!(
        err,
        format!("sender 0x{} is not a registered smart account", "ab".repeat(20))
    );
}

#[test]
fn structural_errors_in_order() {
    let mut op = make_user_op(1);
    op.call_gas_limit = 0;
    op.signature = vec![];
    assert_eq!(op.validate().unwrap_err(), "call_gas_limit must be > 0");
    let mut op = make_user_op(1);
    op.verification_gas_limit = 0;
    assert_eq!(op.validate().unwrap_err(), "verification_gas_limit must be > 0");
    let mut op = make_user_op(1);
    op.max_fee_per_gas = 0;
    assert_eq!(op.validate().unwrap_err(), "max_fee_per_gas must be > 0");
}

#[test]
fn moving_the_paymaster_into_its_data_changes_the_hash() {
    let p = Address::repeat_byte(0x44);
    let mut op1 = make_user_op(7);
    op1.paymaster = Some(p);
    op1.paymaster_data = vec![9, 9];
    let mut op2 = make_user_op(7);
    op2.paymaster = None;
    let mut data = p.as_bytes().to_vec();
    data.extend_from_slice(&[9, 9]);
    op2.paymaster_data = data;
    assert_ne!(op1.hash(), op2.hash());
    // Moving bytes between the call data and the paymaster data changes it too.
    let mut op3 = make_user_op(7);
    op3.call_data = vec![1, 2];
    op3.paymaster_data = vec![3];
    assert_ne!(make_user_op(7).hash(), op3.hash());
}
