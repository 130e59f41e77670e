use aether::math::{div_256_by_128, mul_div, wide_mul};
use aether::staking::{StakingError, StakingState, Unbonding};
use aether::types::Address;

fn test_address(n: u8) -> Address {
    Address::from_bytes([n; 20])
}

fn one_validator(stake: u128, commission: u16) -> StakingState {
    let mut state = StakingState::new();
    state
        .register_validator(test_address(1), test_address(1), stake, commission, test_address(2))
        .unwrap();
    state
}

#[test]
fn test_register_validator() {
    let mut state = StakingState::new();
    let result = state.register_validator(test_address(1), test_address(1), 1_000_000_000, 1000, test_address(2));
    assert!(result.is_ok());
    assert_eq!(state.validators.len(), 1);
    assert_eq!(state.total_staked, 1_000_000_000);
}

#[test]
fn test_delegate() {
    let mut state = one_validator(1_000_000_000, 1000);
    let result = state.delegate(test_address(3), test_address(3), test_address(1), 500_000_000);
    assert!(result.is_ok());
    assert_eq!(state.delegations.len(), 1);
    assert_eq!(state.total_staked, 1_500_000_000);
}

#[test]
fn test_unbond() {
    let mut state = one_validator(1_000_000_000, 1000);
    state.delegate(test_address(3), test_address(3), test_address(1), 500_000_000).unwrap();
    let result = state.unbond(test_address(3), test_address(3), test_address(1), 200_000_000, 1000);
    assert!(result.is_ok());
    assert_eq!(state.unbonding.len(), 1);
    assert_eq!(state.total_staked, 1_300_000_000);
}

#[test]
fn test_slash() {
    let mut state = one_validator(1_000_000_000, 1000);
    let slashed = state.slash(test_address(1), 500, 0).unwrap();
    assert_eq!(slashed, 50_000_000);
    assert_eq!(state.get_validator(&test_address(1)).unwrap().staked_amount, 950_000_000);
    assert_eq!(state.get_total_staked(), 950_000_000, "total_staked must reflect slashed amount");
}

#[test]
fn test_slash_updates_total_staked_with_delegations() {
    let mut state = one_validator(1_000_000_000, 1000);
    state.delegate(test_address(3), test_address(3), test_address(1), 500_000_000).unwrap();
    let pre_total = state.get_total_staked();
    assert_eq!(pre_total, 1_500_000_000);
    let slashed = state.slash(test_address(1), 1000, 0).unwrap();
    assert_eq!(slashed, 150_000_000);
    assert_eq!(state.get_total_staked(), 1_350_000_000);
}

#[test]
fn test_slash_updates_delegation_balances() {
    let mut state = one_validator(1_000_000_000, 1000);
    state.delegate(test_address(3), test_address(3), test_address(1), 500_000_000).unwrap();
    let slashed = state.slash(test_address(1), 5000, 0).unwrap();
    assert_eq!(slashed, 750_000_000);
    assert_eq!(state.get_validator(&test_address(1)).unwrap().delegated_amount, 250_000_000);
    assert_eq!(state.delegations[0].amount, 250_000_000);
    let err = state
        .unbond(test_address(3), test_address(3), test_address(1), 500_000_000, 1000)
        .unwrap_err();
    assert!(matches!(
        err,
        StakingError::InsufficientDelegation { have: 250_000_000, requested: 500_000_000 }
    ));
}

#[test]
fn test_complete_unbonding() {
    let mut state = StakingState::new();
    state.unbonding.push(Unbonding {
        address: test_address(1),
        validator: test_address(2),
        amount: 100,
        complete_slot: 1000,
    });
    let completed = state.complete_unbonding(999);
    assert_eq!(completed.len(), 0);
    let completed = state.complete_unbonding(1000);
    assert_eq!(completed.len(), 1);
    assert_eq!(completed[0].1, 100);
}

#[test]
fn test_slash_with_high_rate() {
    let mut state = one_validator(1_000_000_000, 1000);
    let slashed = state.slash(test_address(1), 10000, 0).unwrap();
    assert_eq!(slashed, 1_000_000_000);
    assert_eq!(state.get_validator(&test_address(1)).unwrap().staked_amount, 0);
    let slashed_again = state.slash(test_address(1), 500, 0).unwrap();
    assert_eq!(slashed_again, 0, "slashing 0 stake should yield 0");
    assert_eq!(state.get_validator(&test_address(1)).unwrap().staked_amount, 0);
}

#[test]
fn test_slash_no_overflow_on_large_validator_stake() {
    let large_stake: u128 = u128::MAX / 2;
    let mut state = one_validator(large_stake, 1000);
    let slashed = state.slash(test_address(1), 500, 0).unwrap();
    let expected = large_stake / 20;
    assert!(slashed >= expected - 1 && slashed <= expected + 1, "expected ~{expected}, got {slashed}");
    let remaining = state.get_validator(&test_address(1)).unwrap().staked_amount;
    assert_eq!(remaining, large_stake - slashed);
}

#[test]
fn test_slash_rejects_rate_above_100_percent() {
    let mut state = one_validator(1_000_000_000, 1000);
    let result = state.slash(test_address(1), 10_001, 0);
    assert!(matches!(result, Err(StakingError::InvalidSlashRate(10_001))));
    assert_eq!(state.get_validator(&test_address(1)).unwrap().staked_amount, 1_000_000_000);
}

fn actual_total(state: &StakingState) -> u128 {
    state.validators.iter().map(|v| v.staked_amount).sum::<u128>()
        + state.delegations.iter().map(|d| d.amount).sum::<u128>()
}

#[test]
fn test_distribute_rewards_updates_total_staked() {
    let mut state = StakingState::new();
    state.register_validator(test_address(1), test_address(1), 1_000_000_000, 5000, test_address(10)).unwrap();
    state.register_validator(test_address(2), test_address(2), 1_000_000_000, 5000, test_address(20)).unwrap();
    state.delegate(test_address(3), test_address(3), test_address(1), 500_000_000).unwrap();
    state.delegate(test_address(4), test_address(4), test_address(2), 500_000_000).unwrap();
    let initial_total = state.get_total_staked();
    assert_eq!(initial_total, 3_000_000_000);
    let epoch_rewards = 100_000_000;
    state.distribute_rewards(epoch_rewards);
    assert_eq!(state.get_total_staked(), initial_total + epoch_rewards);
    state.distribute_rewards(epoch_rewards);
    assert_eq!(state.get_total_staked(), actual_total(&state));
}

#[test]
fn test_distribute_rewards_single_validator_with_delegators() {
    let mut state = StakingState::new();
    state.register_validator(test_address(1), test_address(1), 1_000_000_000, 1000, test_address(10)).unwrap();
    state.delegate(test_address(3), test_address(3), test_address(1), 500_000_000).unwrap();
    let initial_total = state.get_total_staked();
    let epoch_rewards = 150_000_000;
    state.distribute_rewards(epoch_rewards);
    assert_eq!(state.get_total_staked(), initial_total + epoch_rewards);
}

#[test]
fn test_distribute_rewards_zero_rewards() {
    let mut state = StakingState::new();
    state.register_validator(test_address(1), test_address(1), 1_000_000_000, 500, test_address(10)).unwrap();
    let initial_total = state.get_total_staked();
    state.distribute_rewards(0);
    assert_eq!(state.get_total_staked(), initial_total);
}

#[test]
fn test_distribute_rewards_conservation() {
    let mut state = StakingState::new();
    state.register_validator(test_address(1), test_address(1), 1_000_000_000, 2000, test_address(10)).unwrap();
    state.register_validator(test_address(2), test_address(2), 500_000_000, 500, test_address(20)).unwrap();
    state.delegate(test_address(3), test_address(3), test_address(1), 200_000_000).unwrap();
    state.delegate(test_address(4), test_address(4), test_address(2), 300_000_000).unwrap();
    for _ in 0..5 {
        state.distribute_rewards(100_000_000);
    }
    assert_eq!(state.get_total_staked(), actual_total(&state));
}

#[test]
fn test_slash_reduces_unbonding_queue() {
    let mut state = StakingState::new();
    state.register_validator(test_address(1), test_address(1), 1_000_000_000, 1000, test_address(10)).unwrap();
    state.delegate(test_address(3), test_address(3), test_address(1), 800_000_000).unwrap();
    state.unbond(test_address(3), test_address(3), test_address(1), 800_000_000, 100).unwrap();
    assert_eq!(state.unbonding.len(), 1);
    assert_eq!(state.unbonding[0].amount, 800_000_000);
    let slashed = state.slash(test_address(1), 5000, 0).unwrap();
    assert_eq!(slashed, 900_000_000);
    assert_eq!(state.unbonding[0].amount, 400_000_000);
    let completed = state.complete_unbonding(200_000);
    assert_eq!(completed.len(), 1);
    assert_eq!(completed[0].1, 400_000_000);
}

#[test]
fn test_slash_removes_zero_unbonding_entries() {
    let mut state = StakingState::new();
    state.register_validator(test_address(1), test_address(1), 1_000_000_000, 0, test_address(10)).unwrap();
    state.delegate(test_address(3), test_address(3), test_address(1), 100).unwrap();
    state.unbond(test_address(3), test_address(3), test_address(1), 100, 100).unwrap();
    state.slash(test_address(1), 10000, 0).unwrap();
    assert!(state.unbonding.is_empty(), "zero-amount unbonding entries should be pruned");
}

#[test]
fn test_mul_div_basic() {
    assert_eq!(mul_div(100, 50, 200), 25);
    assert_eq!(mul_div(0, 100, 200), 0);
    assert_eq!(mul_div(100, 0, 200), 0);
    assert_eq!(mul_div(100, 50, 0), 0);
}

#[test]
fn test_mul_div_large_values_no_overflow() {
    let a = u128::MAX / 2;
    let b = 5000u128;
    let c = 10000u128;
    let result = mul_div(a, b, c);
    let expected = a / 2;
    assert!(result == expected || result == expected + 1 || result == expected - 1);
}

#[test]
fn test_mul_div_extreme_overflow() {
    let a = 1u128 << 100;
    let b = 1u128 << 100;
    let c = 1u128 << 100;
    assert_eq!(mul_div(a, b, c), 1u128 << 100);
}

#[test]
fn test_reward_distribution_with_huge_stakes() {
    let mut state = StakingState::new();
    let val = test_address(1);
    state.register_validator(val, val, 1u128 << 100, 1000, val).unwrap();
    let original_stake = state.validators[0].staked_amount;
    let epoch_rewards = 1u128 << 80;
    state.distribute_rewards(epoch_rewards);
    let validator = &state.validators[0];
    let total_credited = validator.staked_amount - original_stake;
    assert!(total_credited > 0, "should distribute rewards even with huge stakes");
    let expected_commission = epoch_rewards / 10;
    assert!(total_credited >= expected_commission - 1 && total_credited <= expected_commission + 1);
}

#[test]
fn test_unjail_after_cooldown() {
    let mut state = StakingState::new();
    let val = test_address(1);
    state.register_validator(val, val, 1_000_000_000, 1000, test_address(2)).unwrap();
    state.slash(val, 100, 100).unwrap();
    state.slash(val, 100, 100).unwrap();
    state.slash(val, 100, 100).unwrap();
    assert!(!state.get_validator(&val).unwrap().is_active);
    let jailed_until = state.get_validator(&val).unwrap().jailed_until.unwrap();
    assert_eq!(jailed_until, 100 + StakingState::UNJAIL_COOLDOWN_SLOTS);
    let err = state.unjail(val, val, 100).unwrap_err();
    assert!(matches!(err, StakingError::ValidatorJailed { .. }));
    state.unjail(val, val, jailed_until).unwrap();
    assert!(state.get_validator(&val).unwrap().is_active);
    assert!(state.get_validator(&val).unwrap().jailed_until.is_none());
    assert_eq!(state.get_validator(&val).unwrap().slash_count, 0);
}

#[test]
fn test_unjail_requires_caller_match() {
    let mut state = StakingState::new();
    let val = test_address(1);
    state.register_validator(val, val, 1_000_000_000, 1000, test_address(2)).unwrap();
    state.slash(val, 100, 0).unwrap();
    state.slash(val, 100, 0).unwrap();
    state.slash(val, 100, 0).unwrap();
    let err = state.unjail(test_address(99), val, StakingState::UNJAIL_COOLDOWN_SLOTS + 1).unwrap_err();
    assert!(matches!(err, StakingError::Unauthorized));
}

#[test]
fn test_unjail_requires_minimum_stake() {
    let mut state = StakingState::new();
    let val = test_address(1);
    state.register_validator(val, val, 100_000_000, 1000, test_address(2)).unwrap();
    state.slash(val, 5000, 0).unwrap();
    state.slash(val, 5000, 0).unwrap();
    state.slash(val, 5000, 0).unwrap();
    assert!(!state.get_validator(&val).unwrap().is_active);
    let err = state.unjail(val, val, StakingState::UNJAIL_COOLDOWN_SLOTS + 1).unwrap_err();
    assert!(matches!(err, StakingError::UnjailInsufficientStake { .. }));
}

#[test]
fn test_unjail_not_jailed_fails() {
    let mut state = StakingState::new();
    let val = test_address(1);
    state.register_validator(val, val, 1_000_000_000, 1000, test_address(2)).unwrap();
    let err = state.unjail(val, val, 0).unwrap_err();
    assert!(matches!(err, StakingError::ValidatorNotJailed(_)));
}

#[test]
fn register_below_minimum_stake_rejected() {
    let mut state = StakingState::new();
    let err = state
        .register_validator(test_address(1), test_address(1), 99_999_999, 0, test_address(2))
        .unwrap_err();
    assert!(matches!(err, StakingError::InsufficientStake { min: 100_000_000, got: 99_999_999 }));
    assert_eq!(state.total_staked, 0);
}

#[test]
fn unbonding_completes_after_unbonding_period() {
    let mut state = one_validator(1_000_000_000, 1000);
    state.delegate(test_address(3), test_address(3), test_address(1), 300).unwrap();
    state.unbond(test_address(3), test_address(3), test_address(1), 300, 10).unwrap();
    assert_eq!(state.unbonding[0].complete_slot, 10 + 100_800);
    assert!(state.complete_unbonding(100_809).is_empty());
    assert_eq!(state.complete_unbonding(100_810), vec![(test_address(3), 300)]);
}

#[test]
fn books_stay_balanced_through_operations() {
    let mut state = one_validator(1_000_000_000, 1000);
    state.delegate(test_address(3), test_address(3), test_address(1), 400).unwrap();
    assert_eq!(state.get_total_staked(), actual_total(&state));
    state.slash(test_address(1), 1000, 0).unwrap();
    assert_eq!(state.get_total_staked(), actual_total(&state));
    state.unbond(test_address(3), test_address(3), test_address(1), 150, 0).unwrap();
    assert_eq!(state.get_total_staked(), actual_total(&state));
}

#[test]
fn slash_of_pending_unbonding_lowers_total_below_stakes() {
    let mut state = one_validator(1_000_000_000, 1000);
    state.delegate(test_address(3), test_address(3), test_address(1), 400).unwrap();
    state.unbond(test_address(3), test_address(3), test_address(1), 150, 0).unwrap();
    let slashed = state.slash(test_address(1), 2500, 0).unwrap();
    assert_eq!(slashed, 250_000_000 + 62 + 37);
    assert_eq!(state.unbonding[0].amount, 113);
    assert_eq!(state.get_total_staked() + 37, actual_total(&state));
}

#[test]
fn active_validators_skip_jailed() {
    let mut state = StakingState::new();
    state.register_validator(test_address(1), test_address(1), 1_000_000_000, 0, test_address(1)).unwrap();
    state.register_validator(test_address(2), test_address(2), 1_000_000_000, 0, test_address(2)).unwrap();
    for _ in 0..3 {
        state.slash(test_address(1), 1, 0).unwrap();
    }
    let active: Vec<Address> = state.active_validators().iter().map(|v| v.address).collect();
    assert_eq!(active, vec![test_address(2)]);
}

#[test]
fn mul_div_keeps_the_full_product() {
    // The middle column of this product carries, and the divisor is above 2^127.
    assert_eq!(mul_div(u128::MAX, u128::MAX, u128::MAX), u128::MAX);
    assert_eq!(mul_div(u128::MAX, u128::MAX - 1, u128::MAX), u128::MAX - 1);
    assert_eq!(mul_div(u128::MAX, 3, u128::MAX - 1), 3);
    assert_eq!(mul_div(u128::MAX, 3, 2), u128::MAX);
    assert_eq!(mul_div(1u128 << 127, 3, 1u128 << 127 | 1), 2);
    assert_eq!(wide_mul(u128::MAX, u128::MAX), (u128::MAX - 1, 1));
    assert_eq!(div_256_by_128(1u128 << 127, 0, u128::MAX), 1u128 << 127);
    assert_eq!(div_256_by_128(5, 7, 5), u128::MAX);
    assert_eq!(div_256_by_128(1, 0, 0), u128::MAX);
}
