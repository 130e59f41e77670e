use aether::rpc::{
    chain_id_hex, check_airdrop_amount, insert_address, invalid_params, parse_address,
    parse_address_set, parse_block_ref, parse_hex_bytes, parse_state_ref, parse_u128, parse_u128_value,
    route_method, BlockRef, IntErrorKind, JsonScalar, RpcMethod, StateRef, MAX_AIRDROP,
};
use aether::rpc::{check_transfer_request, RpcTransferRequest};
use aether::types::{Address, H256};

#[test]
fn routes_known_methods() {
    assert_eq!(route_method("aeth_sendRawTransaction").unwrap(), RpcMethod::SendRawTransaction);
    assert_eq!(route_method("aeth_chainId").unwrap(), RpcMethod::ChainId);
    assert_eq!(route_method("aeth_health").unwrap(), RpcMethod::Health);
    let err = route_method("eth_foo").unwrap_err();
    assert_eq!(err.code, -32601);
    assert_eq!(err.message, "Method not found: eth_foo");
}

#[test]
fn chain_id_is_lower_hex() {
    assert_eq!(chain_id_hex(1), "0x1");
    assert_eq!(chain_id_hex(255), "0xff");
    assert_eq!(chain_id_hex(0), "0x0");
}

#[test]
fn hex_parameters() {
    assert_eq!(parse_hex_bytes("0x0aFF", "data").unwrap(), vec![0x0a, 0xff]);
    assert_eq!(parse_hex_bytes("0x0x01", "data").unwrap(), vec![0x01]);
    let err = parse_hex_bytes("0x123", "data").unwrap_err();
    assert_eq!(err.code, -32602);
    assert_eq!(err.message, "Invalid data hex: Odd number of digits");
    assert!(parse_hex_bytes("zz", "data").is_err());
}

#[test]
fn address_parameters() {
    let hex = format!("0x{}", "11".repeat(20));
    assert_eq!(parse_address(&hex, "sender").unwrap(), Address::from_bytes([0x11; 20]));
    let err = parse_address("0x1122", "sender").unwrap_err();
    assert_eq!(err.message, "Invalid sender length: expected 20 bytes, got 2");
}

#[test]
fn address_sets_drop_repeats() {
    let a = format!("0x{}", "01".repeat(20));
    let b = format!("0x{}", "02".repeat(20));
    let set = parse_address_set(&[a.clone(), b.clone(), a.clone()], "reads").unwrap();
    assert_eq!(set, vec![Address::from_bytes([1; 20]), Address::from_bytes([2; 20])]);
    assert!(parse_address_set(&[a, "0xzz".to_string()], "reads").is_err());
    let mut v = vec![Address::from_bytes([1; 20])];
    assert!(!insert_address(&mut v, Address::from_bytes([1; 20])));
    assert!(insert_address(&mut v, Address::from_bytes([3; 20])));
    assert_eq!(v.len(), 2);
}

#[test]
fn u128_parsing_matches_std() {
    for s in ["0", "+7", "340282366920938463463374607431768211455", "", "+", "-", "-1", "12a", "340282366920938463463374607431768211456"] {
        let ours = parse_u128(s);
        let std = s.parse::<u128>();
        match (ours, std) {
            (Ok(a), Ok(b)) => assert_eq!(a, b),
            (Err(k), Err(e)) => {
                let kind = match e.kind() {
                    std::num::IntErrorKind::Empty => IntErrorKind::Empty,
                    std::num::IntErrorKind::InvalidDigit => IntErrorKind::InvalidDigit,
                    std::num::IntErrorKind::PosOverflow => IntErrorKind::PosOverflow,
                    _ => panic!("unexpected kind"),
                };
                assert_eq!(k, kind, "{s}");
            }
            (a, b) => panic!("mismatch on {s:?}: {a:?} vs {b:?}"),
        }
    }
}

#[test]
fn amount_values() {
    assert_eq!(parse_u128_value(&JsonScalar::Text("1000".to_string()), "amount").unwrap(), 1000);
    assert_eq!(parse_u128_value(&JsonScalar::Number(Some(42)), "amount").unwrap(), 42);
    let err = parse_u128_value(&JsonScalar::Number(None), "amount").unwrap_err();
    assert_eq!(err.message, "Invalid amount: expected unsigned integer");
    let err = parse_u128_value(&JsonScalar::Other, "fee").unwrap_err();
    assert_eq!(err.message, "Invalid fee: expected string or number");
    let err = parse_u128_value(&JsonScalar::Text("x".to_string()), "fee").unwrap_err();
    assert_eq!(err.message, "Invalid fee: invalid digit found in string");
    let err = parse_u128_value(&JsonScalar::Text(String::new()), "fee").unwrap_err();
    assert_eq!(err.message, "Invalid fee: cannot parse integer from empty string");
}

#[test]
fn airdrop_limit() {
    assert!(check_airdrop_amount(MAX_AIRDROP).is_ok());
    let err = check_airdrop_amount(MAX_AIRDROP + 1).unwrap_err();
    assert_eq!(err.code, -32000);
    assert_eq!(err.message, "airdrop amount 1000000000001 exceeds maximum 1000000000000");
}

#[test]
fn block_references() {
    assert_eq!(parse_block_ref("latest").unwrap(), BlockRef::Latest);
    assert_eq!(parse_block_ref("42").unwrap(), BlockRef::Number(42));
    assert_eq!(parse_block_ref("18446744073709551616").unwrap_err().message, "Invalid block number");
    assert_eq!(parse_block_ref("abc").unwrap_err().code, -32602);
}

#[test]
fn state_references() {
    assert!(matches!(parse_state_ref(None).unwrap(), StateRef::Latest));
    assert!(matches!(parse_state_ref(Some("latest")).unwrap(), StateRef::Latest));
    assert!(matches!(parse_state_ref(Some("finalized")).unwrap(), StateRef::Finalized));
    assert!(matches!(parse_state_ref(Some("77")).unwrap(), StateRef::Slot(77)));
    let hash = format!("0x{}", "ab".repeat(32));
    match parse_state_ref(Some(&hash)).unwrap() {
        StateRef::Hash(h) => assert_eq!(h, H256::from_bytes([0xab; 32])),
        other => panic!("expected a hash, got {other:?}"),
    }
    assert_eq!(parse_state_ref(Some("0xzz")).unwrap_err(), "provided hash is not valid hexadecimal");
    assert_eq!(parse_state_ref(Some("0xabcd")).unwrap_err(), "hash must be 32 bytes");
}

#[test]
fn invalid_params_error() {
    let e = invalid_params("bad".to_string());
    assert_eq!(e.code, -32602);
    assert_eq!(e.message, "bad");
    assert!(e.data.is_none());
}

fn transfer_request(amount: JsonScalar, reads: Vec<String>, writes: Vec<String>) -> RpcTransferRequest {
    RpcTransferRequest {
        nonce: 7,
        sender: format!("0x{}", "11".repeat(20)),
        sender_public_key: "0xabcd".to_string(),
        recipient: "22".repeat(20),
        amount,
        fee: JsonScalar::Number(Some(5)),
        gas_limit: 21_000,
        memo: Some("rent".to_string()),
        reads,
        writes,
        signature: "0x0102".to_string(),
    }
}

#[test]
fn transfer_request_fields_are_checked_and_sets_filled() {
    let other = "33".repeat(20);
    let req = transfer_request(
        JsonScalar::Text("1000".to_string()),
        vec![other.clone(), other.clone()],
        vec!["11".repeat(20)],
    );
    let f = check_transfer_request(req).unwrap();
    let sender = Address::from_bytes([0x11; 20]);
    let recipient = Address::from_bytes([0x22; 20]);
    assert_eq!(f.nonce, 7);
    assert_eq!(f.sender, sender);
    assert_eq!(f.recipient, recipient);
    assert_eq!(f.sender_public_key, vec![0xab, 0xcd]);
    assert_eq!(f.signature, vec![1, 2]);
    assert_eq!(f.amount, 1000);
    assert_eq!(f.fee, 5);
    assert_eq!(f.gas_limit, 21_000);
    assert_eq!(f.memo.as_deref(), Some("rent"));
    assert_eq!(f.reads, vec![Address::from_bytes([0x33; 20]), sender]);
    assert_eq!(f.writes, vec![sender, recipient]);
}

#[test]
fn transfer_request_errors_come_in_order() {
    let mut req = transfer_request(JsonScalar::Other, vec![], vec![]);
    req.recipient = "zz".to_string();
    // The recipient is checked before the amount.
    let e = check_transfer_request(req).err().unwrap();
    assert_eq!(e.code, -32602);
    assert!(e.message.starts_with("Invalid recipient hex"));

    let req = transfer_request(JsonScalar::Other, vec![], vec![]);
    let e = check_transfer_request(req).err().unwrap();
    assert_eq!(e.message, "Invalid amount: expected string or number");

    let req = transfer_request(JsonScalar::Number(Some(1)), vec!["12".to_string()], vec![]);
    let mut req = req;
    req.fee = JsonScalar::Text("x".to_string());
    let e = check_transfer_request(req).err().unwrap();
    assert_eq!(e.message, "Invalid fee: invalid digit found in string");

    let req = transfer_request(JsonScalar::Number(Some(1)), vec!["12".to_string()], vec![]);
    let e = check_transfer_request(req).err().unwrap();
    assert_eq!(e.message, "Invalid reads length: expected 20 bytes, got 1");
}
