use aether::contract::{
    clear_mock_storage, emit_log, get_block_number, get_caller, get_timestamp, read_u128,
    storage_delete, storage_read, storage_write, write_u128, ContractContext, ContractError,
    ContractStorage,
};

#[test]
fn host_test_emit_log() {
    assert!(emit_log(b"test event").is_ok());
}

#[test]
fn test_block_number() {
    assert!(get_block_number() > 0);
}

#[test]
fn test_timestamp() {
    assert!(get_timestamp() > 0);
}

#[test]
fn host_values_are_fixed() {
    assert_eq!(get_block_number(), 1000);
    assert_eq!(get_timestamp(), 1_700_000_000);
    assert_eq!(get_caller(), [1u8; 20]);
}

#[test]
fn test_storage_read_write() {
    let mut store = ContractStorage::new();
    clear_mock_storage(&mut store);
    storage_write(&mut store, b"key1", b"value1").unwrap();
    let val = storage_read(&store, b"key1").unwrap();
    assert_eq!(val, Some(b"value1".to_vec()));
}

#[test]
fn test_storage_missing_key() {
    let mut store = ContractStorage::new();
    clear_mock_storage(&mut store);
    let val = storage_read(&store, b"nonexistent").unwrap();
    assert_eq!(val, None);
}

#[test]
fn test_storage_delete() {
    let mut store = ContractStorage::new();
    clear_mock_storage(&mut store);
    storage_write(&mut store, b"key", b"value").unwrap();
    storage_delete(&mut store, b"key").unwrap();
    assert_eq!(storage_read(&store, b"key").unwrap(), None);
}

#[test]
fn test_u128_helpers() {
    let mut store = ContractStorage::new();
    clear_mock_storage(&mut store);
    write_u128(&mut store, b"balance", 1_000_000).unwrap();
    assert_eq!(read_u128(&store, b"balance").unwrap(), 1_000_000);
}

#[test]
fn test_u128_default_zero() {
    let mut store = ContractStorage::new();
    clear_mock_storage(&mut store);
    assert_eq!(read_u128(&store, b"unset").unwrap(), 0);
}

#[test]
fn u128_is_stored_little_endian() {
    let mut store = ContractStorage::new();
    write_u128(&mut store, b"k", 0x0102).unwrap();
    let raw = storage_read(&store, b"k").unwrap().unwrap();
    let mut expected = vec![0u8; 16];
    expected[0] = 0x02;
    expected[1] = 0x01;
    assert_eq!(raw, expected);
    write_u128(&mut store, b"max", u128::MAX).unwrap();
    assert_eq!(read_u128(&store, b"max").unwrap(), u128::MAX);
}

#[test]
fn u128_rejects_wrong_length() {
    let mut store = ContractStorage::new();
    storage_write(&mut store, b"bad", &[0xAB; 5]).unwrap();
    match read_u128(&store, b"bad") {
        Err(ContractError::StorageError(m)) => assert_eq!(m, "invalid u128 encoding"),
        other => panic!("unexpected: {:?}", other),
    }
}

#[test]
fn delete_isolation_and_overwrite() {
    let mut store = ContractStorage::new();
    storage_write(&mut store, b"a", b"1").unwrap();
    storage_write(&mut store, b"b", b"2").unwrap();
    storage_write(&mut store, b"a", b"3").unwrap();
    storage_delete(&mut store, b"b").unwrap();
    assert_eq!(storage_read(&store, b"a").unwrap(), Some(b"3".to_vec()));
    assert_eq!(storage_read(&store, b"b").unwrap(), None);
    storage_write(&mut store, b"e", b"").unwrap();
    assert_eq!(storage_read(&store, b"e").unwrap(), Some(vec![]));
}

#[test]
fn context_hex_is_lowercase_and_injective() {
    let mut caller = [0u8; 20];
    caller[0] = 0xAB;
    caller[19] = 0x01;
    let ctx = ContractContext {
        caller,
        contract_address: [0xff; 20],
        block_number: 1,
        timestamp: 2,
        value: 3,
    };
    let hex = ctx.caller_hex();
    assert_eq!(hex.len(), 40);
    assert_eq!(&hex[0..2], "ab");
    assert_eq!(&hex[38..40], "01");
    assert_eq!(ctx.address_hex(), "ff".repeat(20));
}

#[test]
fn contract_error_messages() {
    assert_eq!(ContractError::InsufficientBalance.message(), "insufficient balance");
    assert_eq!(ContractError::Unauthorized.message(), "unauthorized");
    assert_eq!(ContractError::StorageError("x".into()).message(), "storage error: x");
    assert_eq!(ContractError::InvalidInput("y".into()).message(), "invalid input: y");
    assert_eq!(ContractError::Overflow.message(), "arithmetic overflow");
    assert_eq!(ContractError::Custom("z".into()).message(), "z");
}
