//! The arbitrary-precision unsigned integers of `num_bigint`, as far as this
//! library uses them. Nothing in this file is proved: each function hands
//! its arguments to `num_bigint` and states what that crate documents.

use crate::big_endian::{be_bytes, be_value};
use num_bigint::BigUint;
use vstd::arithmetic::power::pow;
use vstd::prelude::*;

verus! {

/// `num_bigint::BigUint`, taken as an opaque value.
#[verifier::external_type_specification]
#[verifier::external_body]
pub struct ExBigUint(BigUint);

/// The natural number that a `BigUint` holds.
pub uninterp spec fn biguint_value(b: BigUint) -> nat;

/// `base^exponent mod modulus`. Meant for a modulus other than zero.
pub open spec fn mod_exp(base: nat, exponent: nat, modulus: nat) -> nat {
    (pow(base as int, exponent) % (modulus as int)) as nat
}

/// `BigUint::from_bytes_be`: the number that the bytes spell, most
/// significant byte first. The empty slice gives zero.
#[verifier::external_body]
pub(crate) fn from_bytes_be(bytes: &[u8]) -> (number: BigUint)
    ensures
        biguint_value(number) == be_value(bytes@),
{
    BigUint::from_bytes_be(bytes)
}

/// `BigUint::to_bytes_be`: the shortest big-endian spelling of the number,
/// which is the single byte `0` for zero.
#[verifier::external_body]
pub(crate) fn to_bytes_be(number: &BigUint) -> (bytes: Vec<u8>)
    ensures
        bytes@ == be_bytes(biguint_value(*number)),
{
    number.to_bytes_be()
}

/// `BigUint::modpow`: `(base ^ exponent) % modulus`. The crate panics on a
/// zero modulus, so callers must rule that out.
#[verifier::external_body]
pub(crate) fn modpow(base: &BigUint, exponent: &BigUint, modulus: &BigUint) -> (power: BigUint)
    requires
        biguint_value(*modulus) != 0,
    ensures
        biguint_value(power) == mod_exp(
            biguint_value(*base),
            biguint_value(*exponent),
            biguint_value(*modulus),
        ),
{
    base.modpow(exponent, modulus)
}

/// `BigUint::from(u32)`: the same number, widened.
#[verifier::external_body]
pub(crate) fn from_u32(small: u32) -> (number: BigUint)
    ensures
        biguint_value(number) == small as nat,
{
    BigUint::from(small)
}

/// `BigUint`'s `==`: true exactly when both hold the same number.
#[verifier::external_body]
pub(crate) fn equal(left: &BigUint, right: &BigUint) -> (same: bool)
    ensures
        same == (biguint_value(*left) == biguint_value(*right)),
{
    left == right
}

} // verus!
