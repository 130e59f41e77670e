use aether::amm::{mul_div, LiquidityPool};
use aether::types::{Address, H256};

fn test_pool() -> LiquidityPool {
    LiquidityPool::new(
        H256::zero(),
        Address::from_bytes([1u8; 20]),
        Address::from_bytes([2u8; 20]),
        30,
    )
    .unwrap()
}

#[test]
fn test_add_initial_liquidity() {
    let mut pool = test_pool();
    let lp_tokens = pool.add_liquidity(10000, 10000, 0).unwrap();
    assert_eq!(pool.reserve_a, 10000);
    assert_eq!(pool.reserve_b, 10000);
    assert_eq!(lp_tokens, 10000);
}

#[test]
fn test_add_initial_liquidity_uses_exact_product_sqrt() {
    let mut pool = test_pool();
    let lp_tokens = pool.add_liquidity(2_000, 8_000, 0).unwrap();
    assert_eq!(lp_tokens, 4_000);
}

#[test]
fn test_add_initial_liquidity_handles_large_balanced_values() {
    let mut pool = test_pool();
    let amount = 1u128 << 80;
    let lp_tokens = pool.add_liquidity(amount, amount, 0).unwrap();
    assert_eq!(lp_tokens, amount);
}

#[test]
fn test_add_initial_liquidity_respects_min_lp_tokens() {
    let mut pool = test_pool();
    let result = pool.add_liquidity(10_000, 10_000, 10_001);
    assert!(result.is_err());
    assert_eq!(pool.reserve_a, 0);
    assert_eq!(pool.reserve_b, 0);
    assert_eq!(pool.lp_token_supply, 0);
}

#[test]
fn test_add_proportional_liquidity() {
    let mut pool = test_pool();
    pool.add_liquidity(1000, 2000, 0).unwrap();
    let lp_tokens = pool.add_liquidity(500, 1000, 0).unwrap();
    assert_eq!(pool.reserve_a, 1500);
    assert_eq!(pool.reserve_b, 3000);
    assert!(lp_tokens > 0);
}

#[test]
fn test_add_non_proportional_liquidity_rejected() {
    let mut pool = test_pool();
    pool.add_liquidity(1_000, 2_000, 0).unwrap();
    let result = pool.add_liquidity(500, 900, 0);
    assert!(result.is_err());
    assert_eq!(pool.reserve_a, 1_000);
    assert_eq!(pool.reserve_b, 2_000);
    assert_eq!(pool.lp_token_supply, 1_414);
}

#[test]
fn test_remove_liquidity() {
    let mut pool = test_pool();
    let lp_tokens = pool.add_liquidity(1000, 2000, 0).unwrap();
    let (amount_a, amount_b) = pool.remove_liquidity(lp_tokens / 2, 0, 0).unwrap();
    assert!(amount_a > 0);
    assert!(amount_b > 0);
    assert_eq!(amount_a * 2, amount_b);
}

#[test]
fn test_swap() {
    let mut pool = test_pool();
    pool.add_liquidity(1000, 2000, 0).unwrap();
    let amount_out = pool.swap_a_to_b(100, 0).unwrap();
    assert!(amount_out > 0);
    assert!(amount_out < 200);
}

#[test]
fn test_constant_product() {
    let mut pool = test_pool();
    pool.add_liquidity(10000, 10000, 0).unwrap();
    let k_before = pool.reserve_a * pool.reserve_b;
    pool.swap_a_to_b(100, 0).unwrap();
    let k_after = pool.reserve_a * pool.reserve_b;
    assert!(k_after >= k_before);
}

#[test]
fn test_price() {
    let mut pool = test_pool();
    pool.add_liquidity(1000, 2000, 0).unwrap();
    let price = pool.get_price().unwrap();
    assert_eq!(price, 2_000_000);
}

#[test]
fn test_invariant_cannot_decrease_after_swap() {
    let mut pool = test_pool();
    pool.add_liquidity(100_000, 100_000, 0).unwrap();
    let k_before = pool.reserve_a * pool.reserve_b;
    pool.swap_a_to_b(5_000, 0).unwrap();
    let k_after = pool.reserve_a * pool.reserve_b;
    assert!(k_after >= k_before, "invariant decreased: k_before={k_before}, k_after={k_after}");
}

#[test]
fn test_swap_with_zero_amount_rejected() {
    let mut pool = test_pool();
    pool.add_liquidity(10_000, 10_000, 0).unwrap();
    let result = pool.swap_a_to_b(0, 0);
    assert!(result.is_err(), "swap of 0 tokens should be rejected");
}

#[test]
fn test_swap_b_to_a_happy_path() {
    let mut pool = test_pool();
    pool.add_liquidity(1000, 2000, 0).unwrap();
    let amount_out = pool.swap_b_to_a(200, 0).unwrap();
    assert!(amount_out > 0);
    assert!(amount_out < 100, "should be less than proportional due to slippage");
    assert_eq!(pool.reserve_b, 2200);
    assert_eq!(pool.reserve_a, 1000 - amount_out);
}

#[test]
fn test_swap_b_to_a_constant_product() {
    let mut pool = test_pool();
    pool.add_liquidity(10000, 10000, 0).unwrap();
    let k_before = pool.reserve_a * pool.reserve_b;
    pool.swap_b_to_a(100, 0).unwrap();
    let k_after = pool.reserve_a * pool.reserve_b;
    assert!(k_after >= k_before, "invariant must not decrease");
}

#[test]
fn test_swap_b_to_a_min_amount_out_enforced() {
    let mut pool = test_pool();
    pool.add_liquidity(10000, 10000, 0).unwrap();
    let result = pool.swap_b_to_a(100, u128::MAX);
    assert!(result.is_err());
}

#[test]
fn test_swap_b_to_a_zero_rejected() {
    let mut pool = test_pool();
    pool.add_liquidity(10000, 10000, 0).unwrap();
    assert!(pool.swap_b_to_a(0, 0).is_err());
}

#[test]
fn test_swap_b_to_a_symmetry() {
    let mut pool_ab = test_pool();
    let mut pool_ba = test_pool();
    pool_ab.add_liquidity(10000, 10000, 0).unwrap();
    pool_ba.add_liquidity(10000, 10000, 0).unwrap();
    let out_ab = pool_ab.swap_a_to_b(500, 0).unwrap();
    let out_ba = pool_ba.swap_b_to_a(500, 0).unwrap();
    assert_eq!(out_ab, out_ba);
}

#[test]
fn test_get_price_overflow_returns_error() {
    let mut pool = test_pool();
    pool.reserve_a = 1;
    pool.reserve_b = u128::MAX;
    pool.lp_token_supply = 1;
    let result = pool.get_price();
    assert!(result.is_err(), "get_price must error on overflow, not saturate");
}

#[test]
fn test_get_price_large_but_valid() {
    let mut pool = test_pool();
    pool.reserve_a = 1_000_000;
    pool.reserve_b = u128::MAX / 1_000_000;
    pool.lp_token_supply = 1;
    let price = pool.get_price().unwrap();
    assert!(price > 0);
}

#[test]
fn test_fee_bps_above_10000_rejected() {
    let result = LiquidityPool::new(
        H256::zero(),
        Address::from_bytes([1u8; 20]),
        Address::from_bytes([2u8; 20]),
        10001,
    );
    assert!(result.is_err(), "fee_bps > 10000 must be rejected");
}

#[test]
fn test_swap_large_reserves_no_overflow() {
    let mut pool = test_pool();
    let big = 1u128 << 100;
    pool.reserve_a = big;
    pool.reserve_b = big;
    pool.lp_token_supply = big;
    let amount_in = 1u128 << 80;
    let out = pool.swap_a_to_b(amount_in, 0).unwrap();
    assert!(out > 0);
    assert!(out < amount_in, "output must be less than input due to fees and slippage");
    assert!(pool.reserve_a > big);
    assert!(pool.reserve_b < big);
}

#[test]
fn test_swap_b_to_a_large_reserves() {
    let mut pool = test_pool();
    let big = 1u128 << 100;
    pool.reserve_a = big;
    pool.reserve_b = big;
    pool.lp_token_supply = big;
    let amount_in = 1u128 << 80;
    let out = pool.swap_b_to_a(amount_in, 0).unwrap();
    assert!(out > 0);
    assert!(out < amount_in);
}

#[test]
fn test_fee_bps_at_boundary_accepted() {
    let pool = LiquidityPool::new(
        H256::zero(),
        Address::from_bytes([1u8; 20]),
        Address::from_bytes([2u8; 20]),
        10000,
    );
    assert!(pool.is_ok());
}

#[test]
fn swap_output_matches_formula() {
    // out = 100 * 9970 * 2000 / (1000 * 10000 + 100 * 9970) = 181
    let mut pool = test_pool();
    pool.add_liquidity(1000, 2000, 0).unwrap();
    assert_eq!(pool.swap_a_to_b(100, 0).unwrap(), 181);
    assert_eq!(pool.reserve_a, 1100);
    assert_eq!(pool.reserve_b, 1819);
}

#[test]
fn swap_against_empty_pool_rejected() {
    let mut pool = test_pool();
    assert_eq!(pool.swap_a_to_b(10, 0).unwrap_err(), "invalid reserves");
}

#[test]
fn mul_div_exact_values() {
    assert_eq!(mul_div(6, 7, 3).unwrap(), 14);
    assert_eq!(mul_div(u128::MAX, 2, 2).unwrap(), u128::MAX);
    assert!(mul_div(u128::MAX, 2, 1).is_err());
}

#[test]
fn round_trip_loses_to_fees() {
    let mut pool = test_pool();
    pool.add_liquidity(1000, 2000, 0).unwrap();
    let out_b = pool.swap_a_to_b(100, 0).unwrap();
    assert_eq!(out_b, 181);
    let out_a = pool.swap_b_to_a(out_b, 0).unwrap();
    assert_eq!(out_a, 99);
    assert!(out_a < 100);
}
