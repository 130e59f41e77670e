//! Arbitrary-precision unsigned integers from `num-bigint`, as used by the
//! market maker's overflow-free arithmetic.
use num_bigint::BigUint;
use num_traits::ToPrimitive;
use vstd::prelude::*;

verus! {

#[verifier::external_type_specification]
#[verifier::external_body]
pub struct ExBigUint(BigUint);

/// The number a `BigUint` holds.  Only the wrappers below speak of it.
pub uninterp spec fn big_value(x: BigUint) -> nat;

/// `BigUint::from(u128)`: the big integer holding `x`.
#[verifier::external_body]
pub(crate) fn big_from_u128(x: u128) -> (r: BigUint)
    ensures
        big_value(r) == x,
{
    BigUint::from(x)
}

/// `&BigUint * &BigUint`: the exact product.
#[verifier::external_body]
pub(crate) fn big_mul(a: &BigUint, b: &BigUint) -> (r: BigUint)
    ensures
        big_value(r) == big_value(*a) * big_value(*b),
{
    a * b
}

/// `&BigUint + &BigUint`: the exact sum.
#[verifier::external_body]
pub(crate) fn big_add(a: &BigUint, b: &BigUint) -> (r: BigUint)
    ensures
        big_value(r) == big_value(*a) + big_value(*b),
{
    a + b
}

/// `&BigUint / &BigUint`: the quotient rounded down (panics on a zero divisor).
#[verifier::external_body]
pub(crate) fn big_div(a: &BigUint, b: &BigUint) -> (r: BigUint)
    requires
        big_value(*b) > 0,
    ensures
        big_value(r) == big_value(*a) / big_value(*b),
{
    a / b
}

/// `ToPrimitive::to_u128`: the value when it fits in a `u128`.
#[verifier::external_body]
pub(crate) fn big_to_u128(a: &BigUint) -> (r: Option<u128>)
    ensures
        big_value(*a) <= u128::MAX ==> r == Some(big_value(*a) as u128),
        big_value(*a) > u128::MAX ==> r is None,
{
    a.to_u128()
}

/// `<` on `BigUint` (`PartialOrd`): whether the first number is the smaller.
#[verifier::external_body]
pub(crate) fn big_lt(a: &BigUint, b: &BigUint) -> (r: bool)
    ensures
        r == (big_value(*a) < big_value(*b)),
{
    a < b
}

/// `==` on `BigUint` (`PartialEq`): whether the numbers are equal.
#[verifier::external_body]
pub(crate) fn big_eq(a: &BigUint, b: &BigUint) -> (r: bool)
    ensures
        r == (big_value(*a) == big_value(*b)),
{
    a == b
}

/// `BigUint::clone`: a copy holding the same number.
#[verifier::external_body]
pub(crate) fn big_clone(a: &BigUint) -> (r: BigUint)
    ensures
        big_value(r) == big_value(*a),
{
    a.clone()
}

} // verus!
