use aether::token::AicTokenState;
use aether::types::Address;

fn addr(n: u8) -> Address {
    Address::from_bytes([n; 20])
}

#[test]
fn test_mint() {
    let mut state = AicTokenState::new(addr(1));
    state.mint(addr(1), addr(2), 1000).unwrap();
    assert_eq!(state.balance_of(&addr(2)), 1000);
    assert_eq!(state.total_supply, 1000);
}

#[test]
fn test_burn() {
    let mut state = AicTokenState::new(addr(1));
    state.mint(addr(1), addr(2), 1000).unwrap();
    state.burn(addr(2), addr(2), 300).unwrap();
    assert_eq!(state.balance_of(&addr(2)), 700);
    assert_eq!(state.total_burned, 300);
    assert_eq!(state.total_supply, 700);
}

#[test]
fn lib_test_transfer() {
    let mut state = AicTokenState::new(addr(1));
    state.mint(addr(1), addr(2), 1000).unwrap();
    state.transfer(addr(2), addr(3), 400).unwrap();
    assert_eq!(state.balance_of(&addr(2)), 600);
    assert_eq!(state.balance_of(&addr(3)), 400);
}

#[test]
fn test_approve_and_transfer_from() {
    let mut state = AicTokenState::new(addr(1));
    state.mint(addr(1), addr(2), 1000).unwrap();
    state.approve(addr(2), addr(3), 500).unwrap();
    state.transfer_from(addr(3), addr(2), addr(4), 300).unwrap();
    assert_eq!(state.balance_of(&addr(2)), 700);
    assert_eq!(state.balance_of(&addr(4)), 300);
    assert_eq!(state.allowance_of(&addr(2), &addr(3)), 200);
}

#[test]
fn test_burn_more_than_balance_rejected() {
    let mut state = AicTokenState::new(addr(1));
    state.mint(addr(1), addr(2), 100).unwrap();
    let result = state.burn(addr(2), addr(2), 200);
    assert!(result.is_err(), "burning more than balance should fail");
    assert_eq!(state.balance_of(&addr(2)), 100);
    assert_eq!(state.total_supply, 100);
}

#[test]
fn test_transfer_from_exceeds_allowance_rejected() {
    let mut state = AicTokenState::new(addr(1));
    state.mint(addr(1), addr(2), 1000).unwrap();
    state.approve(addr(2), addr(3), 50).unwrap();
    let result = state.transfer_from(addr(3), addr(2), addr(4), 100);
    assert!(result.is_err(), "transfer_from exceeding allowance should fail");
    assert_eq!(state.balance_of(&addr(2)), 1000);
    assert_eq!(state.balance_of(&addr(4)), 0);
    assert_eq!(state.allowance_of(&addr(2), &addr(3)), 50);
}

#[test]
fn test_transfer_from_does_not_consume_allowance_on_failed_transfer() {
    let mut state = AicTokenState::new(addr(1));
    state.approve(addr(2), addr(3), 500).unwrap();
    let result = state.transfer_from(addr(3), addr(2), addr(4), 300);
    assert!(result.is_err(), "transfer should fail: sender has no balance");
    assert_eq!(state.allowance_of(&addr(2), &addr(3)), 500);
    assert_eq!(state.balance_of(&addr(4)), 0);
}

#[test]
fn only_mint_authority_can_mint() {
    let mut state = AicTokenState::new(addr(1));
    assert!(state.mint(addr(9), addr(2), 10).is_err());
    assert_eq!(state.balance_of(&addr(2)), 0);
    assert_eq!(state.total_supply, 0);
}

#[test]
fn self_transfer_rejected() {
    let mut state = AicTokenState::new(addr(1));
    state.mint(addr(1), addr(2), 50).unwrap();
    assert_eq!(state.transfer(addr(2), addr(2), 20).unwrap_err(), "cannot transfer to self");
    assert_eq!(state.balance_of(&addr(2)), 50);
    assert_eq!(state.total_supply, 50);
}

#[test]
fn refused_burn_leaves_allowance_and_balance() {
    let mut state = AicTokenState::new(addr(1));
    state.mint(addr(1), addr(2), 100).unwrap();
    state.approve(addr(2), addr(3), 500).unwrap();
    assert_eq!(state.burn(addr(3), addr(2), 200).unwrap_err(), "insufficient balance");
    assert_eq!(state.allowance_of(&addr(2), &addr(3)), 500);
    assert_eq!(state.balance_of(&addr(2)), 100);
    assert_eq!(state.total_supply, 100);
    assert_eq!(state.total_burned, 0);
    state.burn(addr(3), addr(2), 60).unwrap();
    assert_eq!(state.allowance_of(&addr(2), &addr(3)), 440);
    assert_eq!(state.balance_of(&addr(2)), 40);
}
