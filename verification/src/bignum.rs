//! Arbitrary-precision unsigned integers.
//!
//! The engine computes on `num_bigint::BigUint`. Verification sees each
//! value through `big`, its mathematical value, and each operation through
//! a thin wrapper whose contract states what the operation returns in terms
//! of `big`.

use vstd::prelude::*;
use num_bigint::BigUint;
use num_integer::Integer;

verus! {

use vstd::arithmetic::power::pow;
use vstd::arithmetic::power2::pow2;
use crate::arith::{gcd_nat, with_bit_set};
use crate::encoding::{be_bytes_of, bytes_be_value};

#[verifier::external_type_specification]
#[verifier::external_body]
pub struct ExBigUint(BigUint);

/// The numeric value a `BigUint` holds.
pub uninterp spec fn big(a: BigUint) -> nat;

/// Relies on `From<u64> for BigUint`: the converted word keeps its value.
#[verifier::external_body]
pub(crate) fn big_from_u64(x: u64) -> (r: BigUint)
    ensures
        big(r) == x,
{
    BigUint::from(x)
}

/// Relies on `BigUint::from_bytes_be`: the bytes are read as an unsigned
/// big-endian value.
#[verifier::external_body]
pub(crate) fn big_from_bytes_be(bytes: &[u8]) -> (r: BigUint)
    ensures
        big(r) == bytes_be_value(bytes@),
{
    BigUint::from_bytes_be(bytes)
}

/// Relies on `BigUint::to_bytes_be`: the value in big-endian byte order,
/// with no leading zero byte, and a single zero byte for zero.
#[verifier::external_body]
pub(crate) fn big_to_bytes_be(a: &BigUint) -> (r: Vec<u8>)
    ensures
        r@ == be_bytes_of(big(*a)),
{
    a.to_bytes_be()
}

/// Relies on `Clone for BigUint`: the clone keeps the value.
#[verifier::external_body]
pub(crate) fn big_clone(a: &BigUint) -> (r: BigUint)
    ensures
        big(r) == big(*a),
{
    a.clone()
}

/// Relies on `PartialEq for BigUint`: equality of values.
#[verifier::external_body]
pub(crate) fn big_eq(a: &BigUint, b: &BigUint) -> (r: bool)
    ensures
        r == (big(*a) == big(*b)),
{
    a == b
}

/// Relies on `Ord for BigUint`: the order of values.
#[verifier::external_body]
pub(crate) fn big_lt(a: &BigUint, b: &BigUint) -> (r: bool)
    ensures
        r == (big(*a) < big(*b)),
{
    a < b
}

/// Relies on `num_integer::Integer::is_even` for `BigUint`.
#[verifier::external_body]
pub(crate) fn big_is_even(a: &BigUint) -> (r: bool)
    ensures
        r == (big(*a) % 2 == 0),
{
    a.is_even()
}

/// Relies on `Add for &BigUint`: the sum of the values.
#[verifier::external_body]
pub(crate) fn big_add(a: &BigUint, b: &BigUint) -> (r: BigUint)
    ensures
        big(r) == big(*a) + big(*b),
{
    a + b
}

/// Relies on `Sub for &BigUint`: the difference of the values; the
/// subtrahend must not exceed the minuend, as `BigUint` subtraction panics
/// below zero.
#[verifier::external_body]
pub(crate) fn big_sub(a: &BigUint, b: &BigUint) -> (r: BigUint)
    requires
        big(*b) <= big(*a),
    ensures
        big(r) == big(*a) - big(*b),
{
    a - b
}

/// Relies on `Mul for &BigUint`: the product of the values.
#[verifier::external_body]
pub(crate) fn big_mul(a: &BigUint, b: &BigUint) -> (r: BigUint)
    ensures
        big(r) == big(*a) * big(*b),
{
    a * b
}

/// Relies on `Rem for &BigUint`: the remainder of the values; division by
/// zero panics, so the modulus must be positive.
#[verifier::external_body]
pub(crate) fn big_mod(a: &BigUint, b: &BigUint) -> (r: BigUint)
    requires
        big(*b) >= 1,
    ensures
        big(r) == big(*a) % big(*b),
{
    a % b
}

/// Relies on `Shr<usize> for &BigUint`: a right shift drops the low `k`
/// bits, dividing by `2^k`.
#[verifier::external_body]
pub(crate) fn big_shr(a: &BigUint, k: usize) -> (r: BigUint)
    ensures
        big(r) == big(*a) / pow2(k as nat),
{
    a >> k
}

/// Relies on `BigUint::modpow`: modular exponentiation; a zero modulus
/// panics, so the modulus must be positive.
#[verifier::external_body]
pub(crate) fn big_modpow(base: &BigUint, exponent: &BigUint, modulus: &BigUint) -> (r: BigUint)
    requires
        big(*modulus) >= 1,
    ensures
        big(r) as int == pow(big(*base) as int, big(*exponent)) % (big(*modulus) as int),
{
    base.modpow(exponent, modulus)
}

/// Relies on `BigUint::set_bit` with `true`: the chosen bit is forced to
/// one and no other bit changes.
#[verifier::external_body]
pub(crate) fn big_set_bit(a: &mut BigUint, bit: u64)
    ensures
        big(*final(a)) == with_bit_set(big(*old(a)), bit as nat),
{
    a.set_bit(bit, true)
}

/// Relies on `num_integer::Integer::gcd` for `BigUint`: the greatest
/// common divisor, with `gcd(x, 0) == gcd(0, x) == x`.
#[verifier::external_body]
pub(crate) fn big_gcd(a: &BigUint, b: &BigUint) -> (r: BigUint)
    ensures
        big(r) == gcd_nat(big(*a), big(*b)),
{
    a.gcd(b)
}

} // verus!
