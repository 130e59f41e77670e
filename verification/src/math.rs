//! Wide integer arithmetic for stake accounting: a 128 x 128 bit product held
//! as two 128-bit halves, and the division of such a product by a 128-bit divisor.
use vstd::arithmetic::div_mod::*;
use vstd::arithmetic::power2::*;
use vstd::bits::lemma_u128_shr_is_div;
use vstd::prelude::*;

verus! {

/// 2^64.
pub open spec fn two64() -> int {
    0x1_0000_0000_0000_0000
}

/// 2^128.
pub open spec fn two128() -> int {
    two64() * two64()
}

/// The middle column of the schoolbook product of `a` and `b` split into 64-bit
/// halves: both cross products plus the carry out of the low column.
spec fn mid_sum(a: u128, b: u128) -> int {
    ((a as int) / two64()) * ((b as int) % two64()) + (((a as int) % two64()) * ((b as int) % two64())) / two64() + ((a as int) % two64()) * (
    (b as int) / two64())
}

proof fn lemma_halves(x: u128)
    ensures
        x >> 64u128 == (x as int) / two64(),
        x & 0xFFFF_FFFF_FFFF_FFFFu128 == (x as int) % two64(),
        x == ((x as int) / two64()) * two64() + (x as int) % two64(),
        (x as int) / two64() < two64(),
{
    assert(x >> 64u128 == x / 0x1_0000_0000_0000_0000u128) by (bit_vector);
    assert(x & 0xFFFF_FFFF_FFFF_FFFFu128 == x % 0x1_0000_0000_0000_0000u128) by (bit_vector);
    lemma_fundamental_div_mod(x as int, two64());
    assert(x / 0x1_0000_0000_0000_0000u128 < 0x1_0000_0000_0000_0000u128) by (bit_vector);
}

proof fn lemma_small_product(x: int, y: int)
    requires
        0 <= x < two64(),
        0 <= y < two64(),
    ensures
        0 <= x * y <= (two64() - 1) * (two64() - 1),
{
    assert(0 <= x * y <= (two64() - 1) * (two64() - 1)) by (nonlinear_arith)
        requires
            0 <= x < two64(),
            0 <= y < two64(),
    ;
}

/// The 256-bit product split into its halves: with `m` the middle column,
/// `m = c * 2^128 + mw`, the product is
/// `(ah * bh + mw / 2^64 + c * 2^64) * 2^128 + (mw % 2^64) * 2^64 + ll % 2^64`.
proof fn lemma_product_split(a: u128, b: u128)
    ensures
        ({
            let ah = (a as int) / two64();
            let bh = (b as int) / two64();
            let ll = ((a as int) % two64()) * ((b as int) % two64());
            let m = mid_sum(a, b);
            let mw = m % two128();
            let c = m / two128();
            let hi = ah * bh + mw / two64() + c * two64();
            let lo = (mw % two64()) * two64() + ll % two64();
            &&& a as int * b as int == hi * two128() + lo
            &&& 0 <= lo < two128()
            &&& hi == (a as int * b as int) / two128()
            &&& lo == (a as int * b as int) % two128()
            &&& 0 <= c <= 1
        }),
{
    let ah = (a as int) / two64();
    let al = (a as int) % two64();
    let bh = (b as int) / two64();
    let bl = (b as int) % two64();
    lemma_halves(a);
    lemma_halves(b);
    let ll = al * bl;
    lemma_fundamental_div_mod(ll, two64());
    let m = mid_sum(a, b);
    assert(a * b == ah * bh * two128() + m * two64() + ll % two64()) by (nonlinear_arith)
        requires
            a == ah * two64() + al,
            b == bh * two64() + bl,
            ll == al * bl,
            ll == (ll / two64()) * two64() + ll % two64(),
            m == ah * bl + ll / two64() + al * bh,
            two128() == two64() * two64(),
    ;
    lemma_small_product(ah, bl);
    lemma_small_product(al, bl);
    lemma_small_product(al, (b as int) / two64());
    assert(0 <= ll / two64() < two64()) by {
        lemma_div_pos_is_pos(ll, two64());
        lemma_div_strictly_bounded_local(ll, two64(), two64());
    }
    assert(0 <= m < 2 * two128());
    lemma_fundamental_div_mod(m, two128());
    lemma_mod_bound(m, two128());
    let mw = m % two128();
    let c = m / two128();
    assert(0 <= c <= 1) by {
        lemma_div_pos_is_pos(m, two128());
        lemma_div_strictly_bounded_local(m, two128(), 2);
    }
    lemma_fundamental_div_mod(mw, two64());
    lemma_mod_bound(mw, two64());
    lemma_mod_bound(ll, two64());
    let hi = ah * bh + mw / two64() + c * two64();
    let lo = (mw % two64()) * two64() + ll % two64();
    assert(a * b == hi * two128() + lo) by (nonlinear_arith)
        requires
            a * b == ah * bh * two128() + m * two64() + ll % two64(),
            m == c * two128() + mw,
            mw == (mw / two64()) * two64() + mw % two64(),
            hi == ah * bh + mw / two64() + c * two64(),
            lo == (mw % two64()) * two64() + ll % two64(),
            two128() == two64() * two64(),
    ;
    assert(0 <= lo < two128()) by (nonlinear_arith)
        requires
            lo == (mw % two64()) * two64() + ll % two64(),
            0 <= mw % two64() < two64(),
            0 <= ll % two64() < two64(),
            two128() == two64() * two64(),
    ;
    lemma_fundamental_div_mod_converse(a * b, two128(), hi, lo);
}

/// The 256-bit product of `a` and `b` as (high, low) halves, computed by
/// schoolbook multiplication of 64-bit limbs; no bit of the product is lost.
pub fn wide_mul(a: u128, b: u128) -> (r: (u128, u128))
    ensures
        r.0 as int * two128() + r.1 as int == a as int * b as int,
        r.0 as int == (a as int * b as int) / two128(),
        r.1 as int == (a as int * b as int) % two128(),
{
    let a_hi = a >> 64;
    let a_lo = a & 0xFFFF_FFFF_FFFF_FFFF;
    let b_hi = b >> 64;
    let b_lo = b & 0xFFFF_FFFF_FFFF_FFFF;
    proof {
        lemma_halves(a);
        lemma_halves(b);
        lemma_small_product(a_lo as int, b_lo as int);
        lemma_small_product(a_hi as int, b_lo as int);
        lemma_small_product(a_lo as int, b_hi as int);
        lemma_small_product(a_hi as int, b_hi as int);
    }
    let lo_lo = a_lo * b_lo;
    let hi_lo = a_hi * b_lo;
    let lo_hi = a_lo * b_hi;
    let hi_hi = a_hi * b_hi;
    proof {
        lemma_halves(lo_lo);
    }
    let mid = hi_lo + (lo_lo >> 64);
    // The middle column may overflow; its carry is worth 2^64 in the high half.
    let mid = mid.wrapping_add(lo_hi);
    let carry: u128 = if mid < lo_hi {
        0x1_0000_0000_0000_0000
    } else {
        0
    };
    proof {
        lemma_halves(mid);
        lemma_product_split(a, b);
        let m = mid_sum(a, b);
        assert(m == hi_lo + (lo_lo as int) / two64() + lo_hi);
        if m >= two128() {
            assert(mid == m - two128());
        } else {
            assert(mid == m);
        }
        assert(mid as int == m % two128() && carry as int == (m / two128()) * two64()) by {
            if m >= two128() {
                lemma_fundamental_div_mod_converse(m, two128(), 1, m - two128());
            } else {
                lemma_small_mod(m as nat, two128() as nat);
                lemma_basic_div(m, two128());
            }
        }
        assert(((mid << 64u128) | (lo_lo & 0xFFFF_FFFF_FFFF_FFFFu128)) == (mid
            % 0x1_0000_0000_0000_0000u128) * 0x1_0000_0000_0000_0000u128 + lo_lo
            % 0x1_0000_0000_0000_0000u128) by (bit_vector);
        lemma_div_pos_is_pos(a as int * b as int, two128());
        assert((a as int * b as int) / two128() < two128()) by {
            assert((a as int * b as int) < two128() * two128()) by (nonlinear_arith)
                requires
                    0 <= a < two128(),
                    0 <= b < two128(),
            ;
            lemma_div_strictly_bounded_local(a as int * b as int, two128(), two128());
        }
    }
    let product_lo = (mid << 64) | (lo_lo & 0xFFFF_FFFF_FFFF_FFFF);
    let product_hi = hi_hi + (mid >> 64) + carry;
    (product_hi, product_lo)
}

/// `n / d` rounded down, capped at `u128::MAX`.
pub open spec fn capped_div(n: int, d: int) -> int {
    if n / d > u128::MAX as int {
        u128::MAX as int
    } else {
        n / d
    }
}

/// The value [`mul_div`] returns for `a`, `b`, `c`: 0 when `c` is 0, else
/// `a * b / c` computed exactly and capped at `u128::MAX`.
pub open spec fn spec_mul_div(a: u128, b: u128, c: u128) -> int {
    if c == 0 {
        0
    } else {
        capped_quotient(a, b, c)
    }
}

/// The number made of `hi` followed by the top `k` bits of `lo`.
pub open spec fn prefix_value(hi: u128, lo: u128, k: nat) -> int {
    hi as int * pow2(k) as int + lo as int / (pow2((128 - k) as nat) as int)
}

/// `a * b / c` rounded down, capped at `u128::MAX`.
pub open spec fn capped_quotient(a: u128, b: u128, c: u128) -> int {
    if (a as int * b as int) / (c as int) > u128::MAX as int {
        u128::MAX as int
    } else {
        (a as int * b as int) / (c as int)
    }
}

proof fn lemma_pow2_128()
    ensures
        pow2(128) == two128(),
        pow2(64) == two64(),
{
    lemma2_to64_rest();
    lemma_pow2_adds(64, 64);
}

/// One more bit of `lo` doubles the prefix and adds the bit.
proof fn lemma_prefix_step(hi: u128, lo: u128, k: nat)
    requires
        k < 128,
    ensures
        prefix_value(hi, lo, k + 1) == 2 * prefix_value(hi, lo, k) + ((lo >> ((127 - k) as u128)) & 1u128),
        ((lo >> ((127 - k) as u128)) & 1u128) <= 1,
{
    let i = (127 - k) as u128;
    let x = lo >> i;
    let bit = x & 1u128;
    assert(bit == x % 2) by (bit_vector)
        requires
            bit == x & 1u128,
    ;
    lemma_u128_shr_is_div(lo, i);
    lemma_pow2_pos(i as nat);
    lemma_pow2_unfold((i + 1) as nat);
    lemma_div_denominator(lo as int, pow2(i as nat) as int, 2);
    assert((128 - k) as nat == (i + 1) as nat);
    assert((128 - (k + 1)) as nat == i as nat);
    lemma_fundamental_div_mod(x as int, 2);
    lemma_pow2_unfold(k + 1);
    let p_prev = prefix_value(hi, lo, k);
    let p = prefix_value(hi, lo, k + 1);
    assert(lo as int / (pow2((i + 1) as nat) as int) == (x as int) / 2);
    assert(p == 2 * p_prev + bit) by (nonlinear_arith)
        requires
            p_prev == hi as int * pow2(k) + (x as int) / 2,
            p == hi as int * pow2(k + 1) + x as int,
            pow2(k + 1) == 2 * pow2(k),
            x as int == 2 * ((x as int) / 2) + bit,
    ;
}

/// The prefix of no bits is `hi`; of all 128 bits, the whole number.
proof fn lemma_prefix_ends(hi: u128, lo: u128)
    ensures
        prefix_value(hi, lo, 0) == hi,
        prefix_value(hi, lo, 128) == hi as int * two128() + lo as int,
{
    lemma_pow2_128();
    assert(pow2(0) == 1) by {
        lemma2_to64();
    }
    assert(lo as int / (pow2(128) as int) == 0) by {
        lemma_basic_div(lo as int, two128());
    }
    lemma_div_basics(lo as int);
}

/// Divide the 256-bit value `hi * 2^128 + lo` by `divisor`.  A quotient that
/// does not fit in 128 bits saturates to `u128::MAX` (so does any division
/// of a nonzero `hi` by 0).
pub fn div_256_by_128(hi: u128, lo: u128, divisor: u128) -> (q: u128)
    requires
        hi != 0 || divisor != 0,
    ensures
        divisor == 0 ==> q == u128::MAX,
        divisor != 0 ==> q == capped_div(hi as int * two128() + lo as int, divisor as int),
{
    if hi == 0 {
        return lo / divisor;
    }
    if hi >= divisor {
        proof {
            if divisor != 0 {
                let n = hi as int * two128() + lo as int;
                assert(n >= divisor as int * two128()) by (nonlinear_arith)
                    requires
                        n == hi * two128() + lo,
                        hi >= divisor,
                        lo >= 0,
                ;
                assert(n / divisor as int >= two128()) by {
                    lemma_div_is_ordered(divisor as int * two128(), n, divisor as int);
                    lemma_div_multiples_vanish(two128(), divisor as int);
                }
            }
        }
        return u128::MAX;
    }
    let mut remainder = hi;
    let mut quotient: u128 = 0;
    let mut k: u32 = 0;
    proof {
        lemma_prefix_ends(hi, lo);
        lemma_pow2_128();
        lemma_pow2_pos(0);
    }
    while k < 128
        invariant
            k <= 128,
            0 < divisor,
            remainder < divisor,
            quotient as int * divisor as int + remainder as int == prefix_value(hi, lo, k as nat),
            (quotient as int) < pow2(k as nat),
        decreases 128 - k,
    {
        let i = (127 - k) as u128;
        let bit = (lo >> i) & 1u128;
        proof {
            lemma_prefix_step(hi, lo, k as nat);
            lemma_pow2_unfold((k + 1) as nat);
            lemma_pow2_128();
            if k + 1 < 128 {
                lemma_pow2_strictly_increases((k + 1) as nat, 128);
            }
        }
        let top = remainder >> 127u128;
        let shifted = (remainder << 1u128) | bit;
        proof {
            assert(shifted == (remainder % 0x8000_0000_0000_0000_0000_0000_0000_0000u128) * 2 + bit) by (bit_vector)
                requires
                    bit <= 1,
                    shifted == (remainder << 1u128) | bit,
            ;
            assert((top == 1) == (remainder >= 0x8000_0000_0000_0000_0000_0000_0000_0000u128)) by (bit_vector)
                requires
                    top == remainder >> 127u128,
            ;
        }
        let ghost r1: int = 2 * remainder as int + bit as int;
        let ghost q0: int = quotient as int;
        let ghost p: int = prefix_value(hi, lo, k as nat);
        assert(r1 < 2 * divisor as int);
        if top == 1 || shifted >= divisor {
            proof {
                if top == 1 {
                    assert(shifted as int == r1 - two128());
                } else {
                    assert(shifted as int == r1);
                }
            }
            // r1 - divisor, where r1 may exceed 128 bits by its top bit.
            remainder = if top == 1 {
                shifted + (u128::MAX - divisor) + 1
            } else {
                shifted - divisor
            };
            quotient = quotient * 2 + 1;
            proof {
                assert(quotient as int * divisor as int + remainder as int == 2 * p + bit as int) by (nonlinear_arith)
                    requires
                        q0 * divisor + (r1 - 2 * q0 * 0 - bit) / 1 == q0 * divisor + r1 - bit,
                        q0 * divisor + (r1 - bit) / 2 == p,
                        r1 == 2 * ((r1 - bit) / 2) + bit,
                        quotient == 2 * q0 + 1,
                        remainder == r1 - divisor,
                ;
            }
        } else {
            remainder = shifted;
            quotient = quotient * 2;
            proof {
                assert(quotient as int * divisor as int + remainder as int == 2 * p + bit as int) by (nonlinear_arith)
                    requires
                        q0 * divisor + (r1 - bit) / 2 == p,
                        r1 == 2 * ((r1 - bit) / 2) + bit,
                        quotient == 2 * q0,
                        remainder == r1,
                ;
            }
        }
        k = k + 1;
    }
    proof {
        let n = hi as int * two128() + lo as int;
        lemma_fundamental_div_mod_converse(n, divisor as int, quotient as int, remainder as int);
    }
    quotient
}

/// `(a * b) / c` over a 256-bit intermediate product; 0 when `c == 0`.  The
/// quotient saturates at `u128::MAX` only when it needs more than 128 bits.
pub fn mul_div(a: u128, b: u128, c: u128) -> (r: u128)
    ensures
        r == spec_mul_div(a, b, c),
        c == 0 ==> r == 0,
        c != 0 ==> r == capped_quotient(a, b, c),
{
    if c == 0 {
        return 0;
    }
    let (product_hi, product_lo) = wide_mul(a, b);
    div_256_by_128(product_hi, product_lo, c)
}

proof fn lemma_div_strictly_bounded_local(x: int, a: int, b: int)
    requires
        a > 0,
        b >= 0,
        0 <= x < a * b,
    ensures
        x / a < b,
{
    lemma_div_by_multiple(b, a);
    lemma_div_by_multiple_is_strongly_ordered(x, a * b, b, a);
}


/// `x * rate / 10000` for a rate in basis points, which never exceeds `x`.
pub fn bps_of(x: u128, rate: u128) -> (r: u128)
    requires
        rate <= 10000,
    ensures
        r as int == (x as int * rate as int) / 10000,
        r <= x,
{
    proof {
        assert((x as int * rate as int) / 10000 <= x) by {
            assert(x as int * rate as int <= x as int * 10000) by (nonlinear_arith)
                requires
                    rate <= 10000,
                    x >= 0,
            ;
            lemma_div_is_ordered(x as int * rate as int, x as int * 10000, 10000);
            lemma_div_multiples_vanish(x as int, 10000);
        }
    }
    mul_div(x, rate, 10000)
}

} // verus!
