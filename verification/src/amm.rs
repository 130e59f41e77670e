//! Constant-product market maker (x * y = k) with basis-point fees.
use num_bigint::BigUint;
use vstd::prelude::*;
use vstd::string::StringExecFns;

use crate::bignum::{
    big_add, big_clone, big_div, big_eq, big_from_u128, big_lt, big_mul, big_to_u128, big_value,
};
use crate::types::{Address, H256};

verus! {

/// An error carrying the given message.
pub fn error_message<T>(msg: &str) -> (r: Result<T, String>)
    ensures
        r is Err,
        r->Err_0@ == msg@,
{
    Err(String::from_str(msg))
}

/// `r` is the integer square root of `n`.
pub open spec fn is_isqrt(n: int, r: int) -> bool {
    r >= 0 && r * r <= n && n < (r + 1) * (r + 1)
}

proof fn lemma_newton_not_below(v: int, x: int)
    requires
        v >= 0,
        x >= 1,
    ensures
        ((x + v / x) / 2 + 1) * ((x + v / x) / 2 + 1) > v,
{
    let q = v / x;
    let y = (x + q) / 2;
    vstd::arithmetic::div_mod::lemma_fundamental_div_mod(v, x);
    vstd::arithmetic::div_mod::lemma_mod_bound(v, x);
    assert(v < x * (q + 1)) by (nonlinear_arith)
        requires
            v == x * q + v % x,
            v % x < x,
    ;
    vstd::arithmetic::div_mod::lemma_fundamental_div_mod(x + q, 2);
    assert(2 * (y + 1) >= x + q + 1);
    assert((x + q + 1) * (x + q + 1) >= 4 * x * (q + 1)) by (nonlinear_arith)
        requires
            x >= 1,
    ;
    assert(4 * (y + 1) * (y + 1) >= (x + q + 1) * (x + q + 1)) by (nonlinear_arith)
        requires
            2 * (y + 1) >= x + q + 1,
            x + q + 1 >= 0,
    ;
    assert((y + 1) * (y + 1) > v) by (nonlinear_arith)
        requires
            4 * (y + 1) * (y + 1) >= (x + q + 1) * (x + q + 1),
            (x + q + 1) * (x + q + 1) >= 4 * x * (q + 1),
            v < x * (q + 1),
    ;
}

proof fn lemma_newton_decreases(v: int, x: int)
    requires
        v >= 0,
        x >= 1,
        x * x > v,
    ensures
        (x + v / x) / 2 < x,
{
    let q = v / x;
    vstd::arithmetic::div_mod::lemma_fundamental_div_mod(v, x);
    vstd::arithmetic::div_mod::lemma_mod_bound(v, x);
    assert(q < x) by (nonlinear_arith)
        requires
            v == x * q + v % x,
            v % x >= 0,
            x * x > v,
            x >= 1,
    ;
}

/// The integer square root of `value`, by Newton's iteration.
pub fn integer_sqrt_biguint(value: &BigUint) -> (r: BigUint)
    ensures
        is_isqrt(big_value(*value) as int, big_value(r) as int),
{
    let two = big_from_u128(2);
    if big_lt(value, &two) {
        proof {
            let v = big_value(*value) as int;
            assert(v == 0 || v == 1);
            assert(v * v <= v && v < (v + 1) * (v + 1)) by (nonlinear_arith)
                requires
                    v == 0 || v == 1,
            ;
        }
        return big_clone(value);
    }
    let ghost v = big_value(*value) as int;
    let one = big_from_u128(1);
    let mut x = big_clone(value);
    let x_plus_one = big_add(&x, &one);
    let mut y = big_div(&x_plus_one, &two);
    proof {
        vstd::arithmetic::div_mod::lemma_div_basics(v);
        assert((v + 1) * (v + 1) > v) by (nonlinear_arith)
            requires
                v >= 2,
        ;
    }
    while big_lt(&y, &x)
        invariant
            v == big_value(*value) as int,
            v >= 2,
            big_value(two) == 2,
            big_value(x) >= 1,
            (big_value(x) + 1) * (big_value(x) + 1) > v,
            big_value(y) as int == (big_value(x) as int + v / (big_value(x) as int)) / 2,
        decreases big_value(x),
    {
        proof {
            lemma_newton_not_below(v, big_value(x) as int);
            let yy = big_value(y) as int;
            assert(yy >= 1) by (nonlinear_arith)
                requires
                    (yy + 1) * (yy + 1) > v,
                    v >= 2,
                    yy >= 0,
            ;
        }
        x = big_clone(&y);
        let q = big_div(value, &x);
        let s = big_add(&x, &q);
        y = big_div(&s, &two);
    }
    proof {
        let xx = big_value(x) as int;
        if xx * xx > v {
            lemma_newton_decreases(v, xx);
        }
    }
    x
}

/// `a * b / c` without intermediate overflow where possible.
pub fn mul_div(a: u128, b: u128, c: u128) -> (r: Result<u128, String>)
    ensures
        r is Ok <==> mul_div_ok(a, b, c),
        r is Ok ==> r->Ok_0 as int == (a * b) / c as int,
        r is Err ==> r->Err_0@ == mul_div_error(c),
        c == 0 ==> r is Err && r->Err_0@ == "division by zero in proportional calculation"@,
        c != 0 && a * b <= u128::MAX ==> r == Ok::<u128, String>(((a * b) / c as int) as u128),
        c != 0 && a * b > u128::MAX ==> {
            let whole = (a / c) * b;
            let rest = ((a % c) * b) / c as int;
            if whole <= u128::MAX && (a % c) * b <= u128::MAX && whole + rest <= u128::MAX {
                r == Ok::<u128, String>(((a * b) / c as int) as u128)
            } else {
                r is Err && r->Err_0@ == "overflow in proportional calculation"@
            }
        },
{
    if c == 0 {
        return error_message("division by zero in proportional calculation");
    }
    if let Some(ab) = a.checked_mul(b) {
        return Ok(ab / c);
    }
    proof {
        let q = a / c;
        let m = a % c;
        vstd::arithmetic::div_mod::lemma_fundamental_div_mod(a as int, c as int);
        vstd::arithmetic::div_mod::lemma_mod_bound(a as int, c as int);
        vstd::arithmetic::div_mod::lemma_fundamental_div_mod((m * b) as int, c as int);
        vstd::arithmetic::div_mod::lemma_mod_bound((m * b) as int, c as int);
        let rest = (m * b) / c as int;
        assert(a * b == (q * b + rest) * c + (m * b) % (c as int)) by (nonlinear_arith)
            requires
                a == c * q + m,
                m * b == c * rest + (m * b) % (c as int),
        ;
        vstd::arithmetic::div_mod::lemma_fundamental_div_mod_converse(
            a * b,
            c as int,
            q * b + rest,
            (m * b) % (c as int),
        );
    }
    let whole = match (a / c).checked_mul(b) {
        Some(w) => w,
        None => return error_message("overflow in proportional calculation"),
    };
    let remainder = match (a % c).checked_mul(b) {
        Some(x) => x / c,
        None => return error_message("overflow in proportional calculation"),
    };
    match whole.checked_add(remainder) {
        Some(t) => Ok(t),
        None => error_message("overflow in proportional calculation"),
    }
}


/// Whether [`mul_div`] succeeds on `a`, `b`, `c`.
pub open spec fn mul_div_ok(a: u128, b: u128, c: u128) -> bool {
    c != 0 && (a * b <= u128::MAX || ((a / c) * b <= u128::MAX && (a % c) * b <= u128::MAX && (a
        / c) * b + ((a % c) * b) / c as int <= u128::MAX))
}

/// The message of a failed [`mul_div`].
pub open spec fn mul_div_error(c: u128) -> Seq<char> {
    if c == 0 {
        "division by zero in proportional calculation"@
    } else {
        "overflow in proportional calculation"@
    }
}

/// The pool's fields other than its reserves and LP supply are those of `old`.
pub open spec fn same_identity(p: LiquidityPool, old: LiquidityPool) -> bool {
    p.pool_id == old.pool_id && p.token_a == old.token_a && p.token_b == old.token_b && p.fee_bps
        == old.fee_bps
}

/// A constant-product liquidity pool.
#[derive(Clone, Debug)]
pub struct LiquidityPool {
    pub pool_id: H256,
    pub token_a: Address,
    pub token_b: Address,
    pub reserve_a: u128,
    pub reserve_b: u128,
    pub lp_token_supply: u128,
    /// Basis points (30 = 0.3%).
    pub fee_bps: u32,
}

/// The output of a swap of `amount_in` against reserves `reserve_in` and
/// `reserve_out` with a fee of `fee_bps` basis points.
pub open spec fn swap_output(amount_in: int, reserve_in: int, reserve_out: int, fee_bps: int) -> int {
    (amount_in * (10000 - fee_bps) * reserve_out) / (reserve_in * 10000 + amount_in * (10000
        - fee_bps))
}

/// A swap never drains a reserve and never lowers the constant product: the
/// output is below the output reserve, and the product of the reserves after
/// the swap is at least the product before.
pub proof fn lemma_swap_output_bounds(amount_in: int, reserve_in: int, reserve_out: int, fee_bps: int)
    requires
        amount_in > 0,
        reserve_in > 0,
        reserve_out > 0,
        0 <= fee_bps <= 10000,
    ensures
        0 <= swap_output(amount_in, reserve_in, reserve_out, fee_bps) < reserve_out,
        (reserve_in + amount_in) * (reserve_out - swap_output(amount_in, reserve_in, reserve_out, fee_bps))
            >= reserve_in * reserve_out,
{
    let f = 10000 - fee_bps;
    let num = amount_in * f * reserve_out;
    let den = reserve_in * 10000 + amount_in * f;
    let out = num / den;
    assert(den > 0) by (nonlinear_arith)
        requires
            reserve_in > 0,
            amount_in > 0,
            f >= 0,
            den == reserve_in * 10000 + amount_in * f,
    ;
    assert(num >= 0) by (nonlinear_arith)
        requires
            amount_in > 0,
            f >= 0,
            reserve_out > 0,
            num == amount_in * f * reserve_out,
    ;
    vstd::arithmetic::div_mod::lemma_fundamental_div_mod(num, den);
    vstd::arithmetic::div_mod::lemma_mod_bound(num, den);
    vstd::arithmetic::div_mod::lemma_div_pos_is_pos(num, den);
    // out * den <= num
    assert(out * den <= num);
    // num < reserve_out * den, hence out < reserve_out
    assert(num < reserve_out * den) by (nonlinear_arith)
        requires
            num == amount_in * f * reserve_out,
            den == reserve_in * 10000 + amount_in * f,
            reserve_in > 0,
            reserve_out > 0,
    ;
    assert(out < reserve_out) by (nonlinear_arith)
        requires
            out * den <= num,
            num < reserve_out * den,
            den > 0,
    ;
    // out * (reserve_in + amount_in) <= amount_in * reserve_out
    assert(out * (reserve_in + amount_in) * 10000 <= amount_in * reserve_out * 10000)
        by (nonlinear_arith)
        requires
            out * den <= num,
            num == amount_in * f * reserve_out,
            den == reserve_in * 10000 + amount_in * f,
            0 <= f <= 10000,
            out >= 0,
            reserve_in > 0,
            amount_in > 0,
            reserve_out > 0,
    ;
    assert((reserve_in + amount_in) * (reserve_out - out) >= reserve_in * reserve_out)
        by (nonlinear_arith)
        requires
            out * (reserve_in + amount_in) * 10000 <= amount_in * reserve_out * 10000,
    ;
}

/// A round trip loses to fees: swapping `amount_in` of one token and then
/// swapping all that came out straight back returns less than `amount_in`,
/// whenever the fee is not zero.
pub proof fn lemma_round_trip_loses_to_fees(amount_in: int, reserve_a: int, reserve_b: int, fee_bps: int)
    requires
        amount_in > 0,
        reserve_a > 0,
        reserve_b > 0,
        0 < fee_bps <= 10000,
    ensures
        ({
            let out_b = swap_output(amount_in, reserve_a, reserve_b, fee_bps);
            &&& 0 <= out_b < reserve_b
            &&& swap_output(out_b, reserve_b - out_b, reserve_a + amount_in, fee_bps) < amount_in
        }),
{
    lemma_swap_output_bounds(amount_in, reserve_a, reserve_b, fee_bps);
    let x = amount_in;
    let ra = reserve_a;
    let rb = reserve_b;
    let f = 10000 - fee_bps;
    let d1 = ra * 10000 + x * f;
    let o1 = swap_output(x, ra, rb, fee_bps);
    assert(d1 > 0) by (nonlinear_arith)
        requires
            ra > 0,
            x > 0,
            f >= 0,
            d1 == ra * 10000 + x * f,
    ;
    assert(x * f * rb >= 0) by (nonlinear_arith)
        requires
            x > 0,
            f >= 0,
            rb > 0,
    ;
    vstd::arithmetic::div_mod::lemma_fundamental_div_mod(x * f * rb, d1);
    vstd::arithmetic::div_mod::lemma_mod_bound(x * f * rb, d1);
    assert(o1 * d1 <= x * f * rb);
    let rb2 = rb - o1;
    let ra2 = ra + x;
    let d2 = rb2 * 10000 + o1 * f;
    let o2 = swap_output(o1, rb2, ra2, fee_bps);
    assert(d2 > 0) by (nonlinear_arith)
        requires
            rb2 > 0,
            o1 >= 0,
            f >= 0,
            d2 == rb2 * 10000 + o1 * f,
    ;
    assert(o1 * f * ra2 >= 0) by (nonlinear_arith)
        requires
            o1 >= 0,
            f >= 0,
            ra2 > 0,
    ;
    vstd::arithmetic::div_mod::lemma_fundamental_div_mod(o1 * f * ra2, d2);
    vstd::arithmetic::div_mod::lemma_mod_bound(o1 * f * ra2, d2);
    assert(o2 * d2 <= o1 * f * ra2);
    if o1 == 0 {
        assert(o2 * d2 <= 0);
        assert(o2 <= 0) by (nonlinear_arith)
            requires
                o2 * d2 <= 0,
                d2 > 0,
        ;
    } else {
        // The first swap's bound: o1 * ra * 10000 <= x * f * (rb - o1).
        assert(o1 * ra * 10000 <= x * f * rb2) by (nonlinear_arith)
            requires
                o1 * d1 <= x * f * rb,
                d1 == ra * 10000 + x * f,
                rb2 == rb - o1,
        ;
        assert(f > 0) by (nonlinear_arith)
            requires
                o1 * d1 <= x * f * rb,
                o1 > 0,
                d1 > 0,
                f >= 0,
                x > 0,
                rb > 0,
        ;
        assert(o1 * f * ra < x * rb2 * 10000) by (nonlinear_arith)
            requires
                o1 * ra * 10000 <= x * f * rb2,
                0 < f < 10000,
                x > 0,
                rb2 > 0,
                o1 > 0,
                ra > 0,
        ;
        assert(o1 * f * ra2 < x * d2) by (nonlinear_arith)
            requires
                o1 * f * ra < x * rb2 * 10000,
                ra2 == ra + x,
                d2 == rb2 * 10000 + o1 * f,
        ;
        assert(o2 < x) by (nonlinear_arith)
            requires
                o2 * d2 <= o1 * f * ra2,
                o1 * f * ra2 < x * d2,
                d2 > 0,
        ;
    }
}

impl LiquidityPool {
    /// A pool with no reserves; fails when `fee_bps` exceeds 10000.
    pub fn new(pool_id: H256, token_a: Address, token_b: Address, fee_bps: u32) -> (r: Result<Self, String>)
        ensures
            fee_bps > 10000 ==> r is Err && r->Err_0@ == "fee_bps must be <= 10000"@,
            fee_bps <= 10000 ==> r is Ok && ({
                let p = r->Ok_0;
                &&& p.pool_id == pool_id
                &&& p.token_a == token_a
                &&& p.token_b == token_b
                &&& p.reserve_a == 0
                &&& p.reserve_b == 0
                &&& p.lp_token_supply == 0
                &&& p.fee_bps == fee_bps
            }),
    {
        if fee_bps > 10000 {
            return error_message("fee_bps must be <= 10000");
        }
        Ok(
            LiquidityPool {
                pool_id,
                token_a,
                token_b,
                reserve_a: 0,
                reserve_b: 0,
                lp_token_supply: 0,
                fee_bps,
            },
        )
    }

    /// Output of swapping `amount_in` against the given reserves.
    fn get_amount_out(&self, amount_in: u128, reserve_in: u128, reserve_out: u128) -> (r: Result<u128, String>)
        requires
            self.fee_bps <= 10000,
        ensures
            amount_in == 0 || reserve_in == 0 || reserve_out == 0 ==> r is Err && r->Err_0@
                == "invalid reserves"@,
            amount_in != 0 && reserve_in != 0 && reserve_out != 0 ==> r == Ok::<u128, String>(
                swap_output(
                    amount_in as int,
                    reserve_in as int,
                    reserve_out as int,
                    self.fee_bps as int,
                ) as u128,
            ) && swap_output(amount_in as int, reserve_in as int, reserve_out as int, self.fee_bps as int)
                < reserve_out,
    {
        if amount_in == 0 || reserve_in == 0 || reserve_out == 0 {
            return error_message("invalid reserves");
        }
        let fee_multiplier = 10000u128 - self.fee_bps as u128;
        let amount_in_with_fee = big_mul(&big_from_u128(amount_in), &big_from_u128(fee_multiplier));
        let numerator = big_mul(&amount_in_with_fee, &big_from_u128(reserve_out));
        let denominator = big_add(
            &big_mul(&big_from_u128(reserve_in), &big_from_u128(10000)),
            &amount_in_with_fee,
        );
        proof {
            lemma_swap_output_bounds(
                amount_in as int,
                reserve_in as int,
                reserve_out as int,
                self.fee_bps as int,
            );
            assert(big_value(denominator) > 0) by (nonlinear_arith)
                requires
                    big_value(denominator) == reserve_in * 10000 + amount_in * fee_multiplier,
                    reserve_in > 0,
                    fee_multiplier >= 0,
            ;
        }
        let quotient = big_div(&numerator, &denominator);
        match big_to_u128(&quotient) {
            Some(out) => Ok(out),
            None => error_message("swap output overflow"),
        }
    }

    /// Add liquidity, minting LP tokens: the integer square root of the
    /// product for the first deposit, otherwise the smaller proportional share.
    pub fn add_liquidity(&mut self, amount_a: u128, amount_b: u128, min_lp_tokens: u128) -> (r: Result<u128, String>)
        ensures
            same_identity(*final(self), *old(self)),
            amount_a == 0 || amount_b == 0 ==> r is Err && r->Err_0@ == "amounts must be non-zero"@
                && *final(self) == *old(self),
            amount_a != 0 && amount_b != 0 && old(self).lp_token_supply == 0 ==> {
                let liquidity = r->Ok_0;
                &&& r is Ok ==> is_isqrt(amount_a * amount_b, liquidity as int) && liquidity >= 1000
                    && liquidity >= min_lp_tokens && final(self).reserve_a == amount_a && final(
                    self).reserve_b == amount_b && final(self).lp_token_supply == liquidity
                &&& r is Err ==> *final(self) == *old(self) && exists|l: int|
                    #![trigger is_isqrt(amount_a * amount_b, l)]
                    is_isqrt(amount_a * amount_b, l) && (if l < 1000 {
                        r->Err_0@ == "insufficient initial liquidity"@
                    } else {
                        l < min_lp_tokens && r->Err_0@ == "insufficient LP tokens"@
                    })
            },
            amount_a != 0 && amount_b != 0 && old(self).lp_token_supply != 0 ==> {
                let ra = old(self).reserve_a;
                let rb = old(self).reserve_b;
                let supply = old(self).lp_token_supply;
                let la = (amount_a * supply) / ra as int;
                let lb = (amount_b * supply) / rb as int;
                let liquidity = if la < lb {
                    la
                } else {
                    lb
                };
                let ratio_overflow = amount_a * rb > u128::MAX || amount_b * ra > u128::MAX;
                let ratio_ok = !ratio_overflow && amount_a * rb == amount_b * ra;
                let shares_ok = mul_div_ok(amount_a, supply, ra) && mul_div_ok(amount_b, supply, rb);
                &&& ratio_overflow ==> r is Err && r->Err_0@ == "overflow in liquidity ratio check"@
                &&& !ratio_overflow && amount_a * rb != amount_b * ra ==> r is Err && r->Err_0@
                    == "liquidity must be added at the current pool ratio"@
                &&& ratio_ok && !mul_div_ok(amount_a, supply, ra) ==> r is Err && r->Err_0@
                    == mul_div_error(ra)
                &&& ratio_ok && mul_div_ok(amount_a, supply, ra) && !mul_div_ok(amount_b, supply, rb)
                    ==> r is Err && r->Err_0@ == mul_div_error(rb)
                &&& ratio_ok && shares_ok && (liquidity == 0 || liquidity < min_lp_tokens) ==> r is Err
                    && r->Err_0@ == "insufficient LP tokens"@
                &&& !(ratio_ok && shares_ok && liquidity != 0 && liquidity >= min_lp_tokens) ==> *final(
                    self) == *old(self)
                &&& ratio_ok && shares_ok && liquidity != 0 && liquidity >= min_lp_tokens ==> {
                    &&& ra + amount_a > u128::MAX ==> r is Err && r->Err_0@ == "reserve_a overflow"@
                        && *final(self) == *old(self)
                    &&& ra + amount_a <= u128::MAX && rb + amount_b > u128::MAX ==> r is Err
                        && r->Err_0@ == "reserve_b overflow"@ && final(self).reserve_a == ra
                        + amount_a && final(self).reserve_b == rb && final(self).lp_token_supply
                        == supply
                    &&& ra + amount_a <= u128::MAX && rb + amount_b <= u128::MAX && supply
                        + liquidity > u128::MAX ==> r is Err && r->Err_0@ == "lp_token_supply overflow"@
                        && final(self).reserve_a == ra + amount_a && final(self).reserve_b == rb
                        + amount_b && final(self).lp_token_supply == supply
                    &&& ra + amount_a <= u128::MAX && rb + amount_b <= u128::MAX && supply
                        + liquidity <= u128::MAX ==> r == Ok::<u128, String>(liquidity as u128)
                        && final(self).reserve_a == ra + amount_a && final(self).reserve_b == rb
                        + amount_b && final(self).lp_token_supply == supply + liquidity
                }
            },
    {
        if amount_a == 0 || amount_b == 0 {
            return error_message("amounts must be non-zero");
        }
        if self.lp_token_supply == 0 {
            let product = big_mul(&big_from_u128(amount_a), &big_from_u128(amount_b));
            let root = integer_sqrt_biguint(&product);
            proof {
                let p = amount_a * amount_b;
                let l = big_value(root) as int;
                assert(p < 0x1_0000_0000_0000_0000_0000_0000_0000_0000 * 0x1_0000_0000_0000_0000_0000_0000_0000_0000int)
                    by (nonlinear_arith)
                    requires
                        0 <= amount_a < 0x1_0000_0000_0000_0000_0000_0000_0000_0000int,
                        0 <= amount_b < 0x1_0000_0000_0000_0000_0000_0000_0000_0000int,
                        p == amount_a * amount_b,
                ;
                assert(l <= u128::MAX) by (nonlinear_arith)
                    requires
                        l >= 0,
                        l * l <= p,
                        p < 0x1_0000_0000_0000_0000_0000_0000_0000_0000 * 0x1_0000_0000_0000_0000_0000_0000_0000_0000int,
                ;
            }
            let liquidity = match big_to_u128(&root) {
                Some(l) => l,
                None => return error_message("overflow in initial liquidity"),
            };
            if liquidity < 1000 {
                return error_message("insufficient initial liquidity");
            }
            if liquidity < min_lp_tokens {
                return error_message("insufficient LP tokens");
            }
            self.reserve_a = amount_a;
            self.reserve_b = amount_b;
            self.lp_token_supply = liquidity;
            return Ok(liquidity);
        }
        let ratio_lhs = match amount_a.checked_mul(self.reserve_b) {
            Some(x) => x,
            None => return error_message("overflow in liquidity ratio check"),
        };
        let ratio_rhs = match amount_b.checked_mul(self.reserve_a) {
            Some(x) => x,
            None => return error_message("overflow in liquidity ratio check"),
        };
        if ratio_lhs != ratio_rhs {
            return error_message("liquidity must be added at the current pool ratio");
        }
        let liquidity_a = match mul_div(amount_a, self.lp_token_supply, self.reserve_a) {
            Ok(x) => x,
            Err(e) => return Err(e),
        };
        let liquidity_b = match mul_div(amount_b, self.lp_token_supply, self.reserve_b) {
            Ok(x) => x,
            Err(e) => return Err(e),
        };
        let liquidity = if liquidity_a < liquidity_b {
            liquidity_a
        } else {
            liquidity_b
        };
        if liquidity == 0 || liquidity < min_lp_tokens {
            return error_message("insufficient LP tokens");
        }
        self.reserve_a = match self.reserve_a.checked_add(amount_a) {
            Some(x) => x,
            None => return error_message("reserve_a overflow"),
        };
        self.reserve_b = match self.reserve_b.checked_add(amount_b) {
            Some(x) => x,
            None => return error_message("reserve_b overflow"),
        };
        self.lp_token_supply = match self.lp_token_supply.checked_add(liquidity) {
            Some(x) => x,
            None => return error_message("lp_token_supply overflow"),
        };
        Ok(liquidity)
    }

    /// Burn `lp_tokens` and pay out the proportional share of both reserves.
    pub fn remove_liquidity(&mut self, lp_tokens: u128, min_amount_a: u128, min_amount_b: u128) -> (r: Result<(u128, u128), String>)
        ensures
            same_identity(*final(self), *old(self)),
            ({
                let ra = old(self).reserve_a;
                let rb = old(self).reserve_b;
                let supply = old(self).lp_token_supply;
                let out_a = (lp_tokens * ra) / supply as int;
                let out_b = (lp_tokens * rb) / supply as int;
                &&& lp_tokens == 0 ==> r is Err && r->Err_0@ == "amount must be non-zero"@
                &&& lp_tokens != 0 && lp_tokens > supply ==> r is Err && r->Err_0@
                    == "insufficient LP tokens"@
                &&& lp_tokens != 0 && lp_tokens <= supply && !mul_div_ok(lp_tokens, ra, supply) ==> r is Err
                    && r->Err_0@ == "remove_liquidity amount_a: "@ + mul_div_error(supply)
                &&& lp_tokens != 0 && lp_tokens <= supply && mul_div_ok(lp_tokens, ra, supply)
                    && !mul_div_ok(lp_tokens, rb, supply) ==> r is Err && r->Err_0@
                    == "remove_liquidity amount_b: "@ + mul_div_error(supply)
                &&& lp_tokens != 0 && lp_tokens <= supply && mul_div_ok(lp_tokens, ra, supply)
                    && mul_div_ok(lp_tokens, rb, supply) && (out_a < min_amount_a || out_b < min_amount_b)
                    ==> r is Err && r->Err_0@ == "insufficient output amount"@
                &&& r is Err ==> *final(self) == *old(self)
                &&& lp_tokens != 0 && lp_tokens <= supply && mul_div_ok(lp_tokens, ra, supply)
                    && mul_div_ok(lp_tokens, rb, supply) && out_a >= min_amount_a && out_b
                    >= min_amount_b ==> r == Ok::<(u128, u128), String>((out_a as u128, out_b as u128))
                    && final(self).reserve_a == ra - out_a && final(self).reserve_b == rb - out_b
                    && final(self).lp_token_supply == supply - lp_tokens
            }),
    {
        if lp_tokens == 0 {
            return error_message("amount must be non-zero");
        }
        if lp_tokens > self.lp_token_supply {
            return error_message("insufficient LP tokens");
        }
        let amount_a = match mul_div(lp_tokens, self.reserve_a, self.lp_token_supply) {
            Ok(x) => x,
            Err(e) => return Err(String::from_str("remove_liquidity amount_a: ").concat(e.as_str())),
        };
        let amount_b = match mul_div(lp_tokens, self.reserve_b, self.lp_token_supply) {
            Ok(x) => x,
            Err(e) => return Err(String::from_str("remove_liquidity amount_b: ").concat(e.as_str())),
        };
        if amount_a < min_amount_a || amount_b < min_amount_b {
            return error_message("insufficient output amount");
        }
        proof {
            let s = self.lp_token_supply as int;
            assert(lp_tokens * self.reserve_a <= s * self.reserve_a) by (nonlinear_arith)
                requires
                    lp_tokens <= s,
                    self.reserve_a >= 0,
            ;
            assert(lp_tokens * self.reserve_b <= s * self.reserve_b) by (nonlinear_arith)
                requires
                    lp_tokens <= s,
                    self.reserve_b >= 0,
            ;
            vstd::arithmetic::div_mod::lemma_div_is_ordered(lp_tokens * self.reserve_a, s * self.reserve_a, s);
            vstd::arithmetic::div_mod::lemma_div_is_ordered(lp_tokens * self.reserve_b, s * self.reserve_b, s);
            vstd::arithmetic::div_mod::lemma_div_multiples_vanish(self.reserve_a as int, s);
            vstd::arithmetic::div_mod::lemma_div_multiples_vanish(self.reserve_b as int, s);
            assert(s * self.reserve_a == self.reserve_a * s) by (nonlinear_arith);
            assert(s * self.reserve_b == self.reserve_b * s) by (nonlinear_arith);
        }
        self.reserve_a = self.reserve_a - amount_a;
        self.reserve_b = self.reserve_b - amount_b;
        self.lp_token_supply = self.lp_token_supply - lp_tokens;
        Ok((amount_a, amount_b))
    }

    /// Swap `amount_in` of token A for token B.
    pub fn swap_a_to_b(&mut self, amount_in: u128, min_amount_out: u128) -> (r: Result<u128, String>)
        requires
            old(self).fee_bps <= 10000,
        ensures
            same_identity(*final(self), *old(self)),
            final(self).lp_token_supply == old(self).lp_token_supply,
            ({
                let ra = old(self).reserve_a;
                let rb = old(self).reserve_b;
                let out = swap_output(amount_in as int, ra as int, rb as int, old(self).fee_bps as int);
                &&& amount_in == 0 ==> r is Err && r->Err_0@ == "amount must be non-zero"@
                &&& amount_in != 0 && (ra == 0 || rb == 0) ==> r is Err && r->Err_0@ == "invalid reserves"@
                &&& amount_in != 0 && ra != 0 && rb != 0 && out < min_amount_out ==> r is Err && r->Err_0@
                    == "insufficient output amount"@
                &&& amount_in != 0 && ra != 0 && rb != 0 && out >= min_amount_out && ra + amount_in
                    > u128::MAX ==> r is Err && r->Err_0@ == "reserve_a overflow"@
                &&& r is Err ==> *final(self) == *old(self)
                &&& amount_in != 0 && ra != 0 && rb != 0 && out >= min_amount_out && ra + amount_in
                    <= u128::MAX ==> r == Ok::<u128, String>(out as u128) && final(self).reserve_a == ra
                    + amount_in && final(self).reserve_b == rb - out
                    && final(self).reserve_a * final(self).reserve_b >= ra * rb
            }),
    {
        if amount_in == 0 {
            return error_message("amount must be non-zero");
        }
        let k_old = big_mul(&big_from_u128(self.reserve_a), &big_from_u128(self.reserve_b));
        let amount_out = match self.get_amount_out(amount_in, self.reserve_a, self.reserve_b) {
            Ok(x) => x,
            Err(e) => return Err(e),
        };
        if amount_out < min_amount_out {
            return error_message("insufficient output amount");
        }
        let new_a = match self.reserve_a.checked_add(amount_in) {
            Some(x) => x,
            None => return error_message("reserve_a overflow"),
        };
        proof {
            lemma_swap_output_bounds(amount_in as int, self.reserve_a as int, self.reserve_b as int, self.fee_bps as int);
        }
        self.reserve_a = new_a;
        self.reserve_b = self.reserve_b - amount_out;
        let checked = self.check_invariant_big(&k_old);
        proof {
            assert(self.reserve_a * self.reserve_b > 0) by (nonlinear_arith)
                requires
                    self.reserve_a > 0,
                    self.reserve_b > 0,
            ;
        }
        match checked {
            Ok(()) => Ok(amount_out),
            Err(e) => Err(e),
        }
    }

    /// Swap `amount_in` of token B for token A.
    pub fn swap_b_to_a(&mut self, amount_in: u128, min_amount_out: u128) -> (r: Result<u128, String>)
        requires
            old(self).fee_bps <= 10000,
        ensures
            same_identity(*final(self), *old(self)),
            final(self).lp_token_supply == old(self).lp_token_supply,
            ({
                let ra = old(self).reserve_a;
                let rb = old(self).reserve_b;
                let out = swap_output(amount_in as int, rb as int, ra as int, old(self).fee_bps as int);
                &&& amount_in == 0 ==> r is Err && r->Err_0@ == "amount must be non-zero"@
                &&& amount_in != 0 && (ra == 0 || rb == 0) ==> r is Err && r->Err_0@ == "invalid reserves"@
                &&& amount_in != 0 && ra != 0 && rb != 0 && out < min_amount_out ==> r is Err && r->Err_0@
                    == "insufficient output amount"@
                &&& amount_in != 0 && ra != 0 && rb != 0 && out >= min_amount_out && rb + amount_in
                    > u128::MAX ==> r is Err && r->Err_0@ == "reserve_b overflow"@
                &&& r is Err ==> *final(self) == *old(self)
                &&& amount_in != 0 && ra != 0 && rb != 0 && out >= min_amount_out && rb + amount_in
                    <= u128::MAX ==> r == Ok::<u128, String>(out as u128) && final(self).reserve_b == rb
                    + amount_in && final(self).reserve_a == ra - out
                    && final(self).reserve_a * final(self).reserve_b >= ra * rb
            }),
    {
        if amount_in == 0 {
            return error_message("amount must be non-zero");
        }
        let k_old = big_mul(&big_from_u128(self.reserve_b), &big_from_u128(self.reserve_a));
        let amount_out = match self.get_amount_out(amount_in, self.reserve_b, self.reserve_a) {
            Ok(x) => x,
            Err(e) => return Err(e),
        };
        if amount_out < min_amount_out {
            return error_message("insufficient output amount");
        }
        let new_b = match self.reserve_b.checked_add(amount_in) {
            Some(x) => x,
            None => return error_message("reserve_b overflow"),
        };
        proof {
            lemma_swap_output_bounds(amount_in as int, self.reserve_b as int, self.reserve_a as int, self.fee_bps as int);
        }
        self.reserve_b = new_b;
        self.reserve_a = self.reserve_a - amount_out;
        let checked = self.check_invariant_big(&k_old);
        proof {
            assert(self.reserve_a * self.reserve_b > 0) by (nonlinear_arith)
                requires
                    self.reserve_a > 0,
                    self.reserve_b > 0,
            ;
            assert(self.reserve_a * self.reserve_b == self.reserve_b * self.reserve_a) by (nonlinear_arith);
            let oa = old(self).reserve_a as int;
            let ob = old(self).reserve_b as int;
            assert(ob * oa == oa * ob) by (nonlinear_arith);
        }
        match checked {
            Ok(()) => Ok(amount_out),
            Err(e) => Err(e),
        }
    }

    /// The constant product must be non-zero and must not have decreased.
    fn check_invariant_big(&self, k_old: &BigUint) -> (r: Result<(), String>)
        ensures
            self.reserve_a * self.reserve_b == 0 ==> r is Err && r->Err_0@ == "invariant violated: k = 0"@,
            self.reserve_a * self.reserve_b != 0 && self.reserve_a * self.reserve_b < big_value(*k_old) ==> r is Err
                && r->Err_0@ == "invariant violated: k decreased"@,
            self.reserve_a * self.reserve_b != 0 && self.reserve_a * self.reserve_b >= big_value(*k_old) ==> r is Ok,
    {
        let k_new = big_mul(&big_from_u128(self.reserve_a), &big_from_u128(self.reserve_b));
        if big_eq(&k_new, &big_from_u128(0)) {
            return error_message("invariant violated: k = 0");
        }
        if big_lt(&k_new, k_old) {
            return error_message("invariant violated: k decreased");
        }
        Ok(())
    }

    /// The price of A in B, scaled by 10^6.
    pub fn get_price(&self) -> (r: Result<u128, String>)
        ensures
            self.reserve_a == 0 ==> r is Err && r->Err_0@ == "zero reserve"@,
            self.reserve_a != 0 && self.reserve_b * 1_000_000 > u128::MAX ==> r is Err && r->Err_0@
                == "overflow in price calculation"@,
            self.reserve_a != 0 && self.reserve_b * 1_000_000 <= u128::MAX ==> r == Ok::<u128, String>(
                ((self.reserve_b * 1_000_000) / self.reserve_a as int) as u128,
            ),
    {
        if self.reserve_a == 0 {
            return error_message("zero reserve");
        }
        match self.reserve_b.checked_mul(1_000_000) {
            Some(n) => Ok(n / self.reserve_a),
            None => error_message("overflow in price calculation"),
        }
    }
}

} // verus!
