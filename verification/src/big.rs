//! Trusted boundary to the arbitrary-precision integers of `num_bigint`.
//!
//! The library's logic never reads a `BigInt` directly: every operation it
//! needs goes through one of the wrappers below, whose contracts state what
//! `num_bigint` computes in terms of `big_int_of`, the number a `BigInt`
//! holds.

use vstd::prelude::*;
use vstd::arithmetic::power2::pow2;
use crate::model::{be_val, le_val};

verus! {

/// `num_bigint::BigInt`, an arbitrary-precision signed integer, declared so
/// that it can stand in signatures and fields. Its contents are reached only
/// through `big_int_of`.
#[verifier::external_type_specification]
#[verifier::external_body]
pub struct ExBigInt(num_bigint::BigInt);

/// The mathematical integer a `BigInt` holds.
pub uninterp spec fn big_int_of(b: num_bigint::BigInt) -> int;

/// Relies on `BigInt`'s `From<u32>` impl: the result holds exactly the given
/// value.
#[verifier::external_body]
pub(crate) fn big_from_u32(v: u32) -> (r: num_bigint::BigInt)
    ensures
        big_int_of(r) == v as int,
{
    num_bigint::BigInt::from(v)
}

/// Relies on `BigInt`'s `Clone` impl: the copy holds the same number.
#[verifier::external_body]
pub(crate) fn big_clone(a: &num_bigint::BigInt) -> (r: num_bigint::BigInt)
    ensures
        big_int_of(r) == big_int_of(*a),
{
    a.clone()
}

/// Relies on `Add for &BigInt`: exact integer addition.
#[verifier::external_body]
pub(crate) fn big_add(a: &num_bigint::BigInt, b: &num_bigint::BigInt) -> (r: num_bigint::BigInt)
    ensures
        big_int_of(r) == big_int_of(*a) + big_int_of(*b),
{
    a + b
}

/// Relies on `Sub for &BigInt`: exact integer subtraction.
#[verifier::external_body]
pub(crate) fn big_sub(a: &num_bigint::BigInt, b: &num_bigint::BigInt) -> (r: num_bigint::BigInt)
    ensures
        big_int_of(r) == big_int_of(*a) - big_int_of(*b),
{
    a - b
}

/// Relies on `Not for &BigInt`: bitwise complement of an infinite
/// two's-complement encoding, which is `-a - 1`.
#[verifier::external_body]
pub(crate) fn big_not(a: &num_bigint::BigInt) -> (r: num_bigint::BigInt)
    ensures
        big_int_of(r) == -big_int_of(*a) - 1,
{
    !a
}

/// Relies on `Shl<usize> for &BigInt`: a left shift multiplies by a power of
/// two.
#[verifier::external_body]
pub(crate) fn big_shl(a: &num_bigint::BigInt, n: usize) -> (r: num_bigint::BigInt)
    ensures
        big_int_of(r) == big_int_of(*a) * pow2(n as nat),
{
    a << n
}

/// Relies on `Shr<usize> for &BigInt`: on a non-negative value, a right
/// shift divides by a power of two, discarding the remainder.
#[verifier::external_body]
pub(crate) fn big_shr(a: &num_bigint::BigInt, n: usize) -> (r: num_bigint::BigInt)
    requires
        big_int_of(*a) >= 0,
    ensures
        big_int_of(r) == big_int_of(*a) / pow2(n as nat) as int,
{
    a >> n
}

/// Relies on `BitAnd for &BigInt`, which treats a negative operand as an
/// infinite two's-complement bit string: AND with a low-bits mask
/// `2^k - 1` reduces any integer modulo `2^k`.
#[verifier::external_body]
pub(crate) fn big_and(a: &num_bigint::BigInt, b: &num_bigint::BigInt) -> (r: num_bigint::BigInt)
    ensures
        forall|k: nat|
            big_int_of(*b) == #[trigger] pow2(k) - 1 ==> big_int_of(r) == big_int_of(*a) % (pow2(
                k,
            ) as int),
{
    a & b
}

/// Relies on `BitOr for &BigInt`: when the operands occupy disjoint bits
/// (every set bit of `a` lies at or above some position `k`, every set bit
/// of `b` below it), OR coincides with addition.
#[verifier::external_body]
pub(crate) fn big_or(a: &num_bigint::BigInt, b: &num_bigint::BigInt) -> (r: num_bigint::BigInt)
    requires
        big_int_of(*a) >= 0,
        big_int_of(*b) >= 0,
        exists|k: nat|
            big_int_of(*a) % (#[trigger] pow2(k) as int) == 0 && big_int_of(*b) < pow2(k),
    ensures
        big_int_of(r) == big_int_of(*a) + big_int_of(*b),
{
    a | b
}

/// Relies on `PartialEq for BigInt`: equality of the numbers held.
#[verifier::external_body]
pub(crate) fn big_eq(a: &num_bigint::BigInt, b: &num_bigint::BigInt) -> (r: bool)
    ensures
        r == (big_int_of(*a) == big_int_of(*b)),
{
    a == b
}

/// Relies on `Ord for BigInt`: the numeric order of the numbers held.
#[verifier::external_body]
pub(crate) fn big_lt(a: &num_bigint::BigInt, b: &num_bigint::BigInt) -> (r: bool)
    ensures
        r == (big_int_of(*a) < big_int_of(*b)),
{
    a < b
}

/// Relies on `BigInt::sign`: `Sign::Minus` exactly on negative values.
#[verifier::external_body]
pub(crate) fn big_is_negative(a: &num_bigint::BigInt) -> (r: bool)
    ensures
        r == (big_int_of(*a) < 0),
{
    match a.sign() {
        num_bigint::Sign::Minus => true,
        _ => false,
    }
}

/// Relies on `BigInt::to_bytes_be`: the magnitude's minimal big-endian
/// bytes, a single zero byte for zero, with no leading zero byte otherwise.
#[verifier::external_body]
pub(crate) fn big_to_bytes_be(a: &num_bigint::BigInt) -> (r: Vec<u8>)
    requires
        big_int_of(*a) >= 0,
    ensures
        r@.len() >= 1,
        be_val(r@) == big_int_of(*a),
        r@.len() > 1 ==> r@[0] != 0,
{
    let (_, bytes) = a.to_bytes_be();
    bytes
}

/// Relies on `BigInt::to_bytes_le`: the magnitude's minimal little-endian
/// bytes, a single zero byte for zero, with no trailing zero byte otherwise.
#[verifier::external_body]
pub(crate) fn big_to_bytes_le(a: &num_bigint::BigInt) -> (r: Vec<u8>)
    requires
        big_int_of(*a) >= 0,
    ensures
        r@.len() >= 1,
        le_val(r@) == big_int_of(*a),
        r@.len() > 1 ==> r@.last() != 0,
{
    let (_, bytes) = a.to_bytes_le();
    bytes
}

} // verus!
