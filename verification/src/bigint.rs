//! Trusted interface to the arbitrary-precision integers of `num_bigint`.
//!
//! `BigUint` and `BigInt` are opaque to the verifier; `nat_of` and `int_of`
//! name the mathematical value such an integer holds, and each wrapper below
//! states over those names what the wrapped operation computes.

use vstd::arithmetic::power::pow;
use vstd::prelude::*;

use num_bigint::{BigInt, BigUint};
use num_integer::Integer;
use num_traits::ToPrimitive;

verus! {

#[verifier::external_type_specification]
#[verifier::external_body]
pub struct ExBigUint(BigUint);

#[verifier::external_type_specification]
#[verifier::external_body]
pub struct ExBigInt(BigInt);

/// The non-negative integer a `BigUint` holds.
pub uninterp spec fn nat_of(x: BigUint) -> nat;

/// The signed integer a `BigInt` holds.
pub uninterp spec fn int_of(x: BigInt) -> int;

/// Relies on `<BigUint as From<u64>>::from`: the result holds the given value.
#[verifier::external_body]
pub fn big_from_u64(v: u64) -> (r: BigUint)
    ensures
        nat_of(r) == v as nat,
{
    BigUint::from(v)
}

/// Relies on `<BigUint as Clone>::clone`: the copy holds the same value.
pub assume_specification[ <BigUint as Clone>::clone ](a: &BigUint) -> (r: BigUint)
    ensures
        nat_of(r) == nat_of(*a),
;

/// Relies on `<BigInt as Clone>::clone`: the copy holds the same value.
pub assume_specification[ <BigInt as Clone>::clone ](a: &BigInt) -> (r: BigInt)
    ensures
        int_of(r) == int_of(*a),
;

/// Relies on `<&BigUint as Add>::add`: exact sum.
#[verifier::external_body]
pub fn big_add(a: &BigUint, b: &BigUint) -> (r: BigUint)
    ensures
        nat_of(r) == nat_of(*a) + nat_of(*b),
{
    a + b
}

/// Relies on `<&BigUint as Sub>::sub`: exact difference; it panics on
/// underflow, which the precondition rules out.
#[verifier::external_body]
pub fn big_sub(a: &BigUint, b: &BigUint) -> (r: BigUint)
    requires
        nat_of(*b) <= nat_of(*a),
    ensures
        nat_of(r) == nat_of(*a) - nat_of(*b),
{
    a - b
}

/// Relies on `<&BigUint as Mul>::mul`: exact product.
#[verifier::external_body]
pub fn big_mul(a: &BigUint, b: &BigUint) -> (r: BigUint)
    ensures
        nat_of(r) == nat_of(*a) * nat_of(*b),
{
    a * b
}

/// Relies on `<&BigUint as Div>::div`: floor quotient; it panics on a zero
/// divisor, which the precondition rules out.
#[verifier::external_body]
pub fn big_div(a: &BigUint, b: &BigUint) -> (r: BigUint)
    requires
        nat_of(*b) >= 1,
    ensures
        nat_of(r) == nat_of(*a) / nat_of(*b),
{
    a / b
}

/// Relies on `<&BigUint as Rem>::rem`: remainder of the floor division; it
/// panics on a zero divisor, which the precondition rules out.
#[verifier::external_body]
pub fn big_rem(a: &BigUint, b: &BigUint) -> (r: BigUint)
    requires
        nat_of(*b) >= 1,
    ensures
        nat_of(r) == nat_of(*a) % nat_of(*b),
{
    a % b
}

/// Relies on `BigUint::modpow`: returns `(self ^ exponent) % modulus`; it
/// panics on a zero modulus, which the precondition rules out.
#[verifier::external_body]
pub fn big_modpow(base: &BigUint, exponent: &BigUint, modulus: &BigUint) -> (r: BigUint)
    requires
        nat_of(*modulus) >= 1,
    ensures
        nat_of(r) as int == pow(nat_of(*base) as int, nat_of(*exponent)) % (nat_of(*modulus) as int),
{
    base.modpow(exponent, modulus)
}

/// Relies on `<BigUint as PartialEq>::eq`: value equality.
#[verifier::external_body]
pub fn big_eq(a: &BigUint, b: &BigUint) -> (r: bool)
    ensures
        r <==> nat_of(*a) == nat_of(*b),
{
    a == b
}

/// Relies on `<BigUint as PartialOrd>::lt`: value order.
#[verifier::external_body]
pub fn big_lt(a: &BigUint, b: &BigUint) -> (r: bool)
    ensures
        r <==> nat_of(*a) < nat_of(*b),
{
    a < b
}

/// Relies on `<BigUint as ToPrimitive>::to_u64`: returns the held value when
/// it fits in a `u64`; the precondition keeps the unwrap from panicking.
#[verifier::external_body]
pub fn big_to_u64(a: &BigUint) -> (r: u64)
    requires
        nat_of(*a) <= u64::MAX,
    ensures
        r as nat == nat_of(*a),
{
    a.to_u64().unwrap()
}

/// Relies on `<BigInt as From<BigUint>>::from`: the result holds the same value.
#[verifier::external_body]
pub fn bigint_from_big(a: &BigUint) -> (r: BigInt)
    ensures
        int_of(r) == nat_of(*a) as int,
{
    BigInt::from(a.clone())
}

/// Relies on `<BigInt as From<i64>>::from`: the result holds the given value.
#[verifier::external_body]
pub fn bigint_from_i64(v: i64) -> (r: BigInt)
    ensures
        int_of(r) == v as int,
{
    BigInt::from(v)
}

/// Relies on `<&BigInt as Add>::add`: exact sum.
#[verifier::external_body]
pub fn bigint_add(a: &BigInt, b: &BigInt) -> (r: BigInt)
    ensures
        int_of(r) == int_of(*a) + int_of(*b),
{
    a + b
}

/// Relies on `<&BigInt as Sub>::sub`: exact difference.
#[verifier::external_body]
pub fn bigint_sub(a: &BigInt, b: &BigInt) -> (r: BigInt)
    ensures
        int_of(r) == int_of(*a) - int_of(*b),
{
    a - b
}

/// Relies on `<&BigInt as Mul>::mul`: exact product.
#[verifier::external_body]
pub fn bigint_mul(a: &BigInt, b: &BigInt) -> (r: BigInt)
    ensures
        int_of(r) == int_of(*a) * int_of(*b),
{
    a * b
}

/// Relies on `<BigInt as PartialEq>::eq`: value equality.
#[verifier::external_body]
pub fn bigint_eq(a: &BigInt, b: &BigInt) -> (r: bool)
    ensures
        r <==> int_of(*a) == int_of(*b),
{
    a == b
}

/// Relies on `<BigInt as Integer>::mod_floor`: the remainder of the floor
/// division, which for a positive modulus lies in `[0, modulus)`; it panics
/// on a zero modulus, which the precondition rules out.
#[verifier::external_body]
pub fn bigint_mod_floor(a: &BigInt, m: &BigInt) -> (r: BigInt)
    requires
        int_of(*m) >= 1,
    ensures
        int_of(r) == int_of(*a) % int_of(*m),
{
    a.mod_floor(m)
}

/// Relies on `BigInt::to_biguint`: returns the held value when it is
/// non-negative; the precondition keeps the unwrap from panicking.
#[verifier::external_body]
pub fn big_of_int(a: &BigInt) -> (r: BigUint)
    requires
        int_of(*a) >= 0,
    ensures
        nat_of(r) as int == int_of(*a),
{
    a.to_biguint().unwrap()
}

/// Relies on `rand::random::<u64>`: a fresh draw from the process-wide
/// source; nothing can be promised of the value.
#[verifier::external_body]
pub fn random_u64() -> u64 {
    rand::random::<u64>()
}

} // verus!
