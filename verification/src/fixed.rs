//! Signed fixed-point numbers with 64 fractional bits, held as the `i128`
//! bit pattern of `substrate_fixed::types::I64F64`: a pattern `b` stands for
//! the number `b / 2^64`.
//!
//! The arithmetic itself is done by `substrate_fixed`. Each function of this
//! file makes one call into that crate; its contract is taken from the
//! crate's source and is believed, not proved.

use substrate_fixed::transcendental;
use substrate_fixed::types::I64F64;
use vstd::prelude::*;

verus! {

/// The bit pattern of the number one.
pub const ONE: i128 = 0x1_0000_0000_0000_0000;

/// The least integer that has no fixed-point pattern: 2^63.
pub const INT_LIMIT: u128 = 0x8000_0000_0000_0000;

/// The pattern of the integer `n`, where it has one.
pub open spec fn promoted(n: u128) -> Option<i128> {
    if n < INT_LIMIT {
        Some((n * ONE) as i128)
    } else {
        None
    }
}

/// The integer part of a pattern that is not negative.
pub open spec fn truncated(a: i128) -> u128 {
    (a / ONE) as u128
}

/// The sum of two patterns, where it fits.
pub open spec fn sum(a: i128, b: i128) -> Option<i128> {
    if i128::MIN <= a + b <= i128::MAX {
        Some((a + b) as i128)
    } else {
        None
    }
}

/// The difference of two patterns, where it fits.
pub open spec fn difference(a: i128, b: i128) -> Option<i128> {
    if i128::MIN <= a - b <= i128::MAX {
        Some((a - b) as i128)
    } else {
        None
    }
}

/// The product of two patterns that are not negative, rounded down to a
/// pattern, where it fits.
pub open spec fn product(a: i128, b: i128) -> Option<i128> {
    if (a * b) / (ONE as int) <= i128::MAX {
        Some(((a * b) / (ONE as int)) as i128)
    } else {
        None
    }
}

/// The quotient of a pattern that is not negative by a positive one, rounded
/// down to a pattern, where it fits. There is none by zero.
pub open spec fn quotient(a: i128, b: i128) -> Option<i128> {
    if b != 0 && (a * ONE) / (b as int) <= i128::MAX {
        Some(((a * ONE) / (b as int)) as i128)
    } else {
        None
    }
}

/// What `substrate_fixed::transcendental::sqrt` returns for the pattern
/// `operand`: the pattern of its approximation of the square root, or `None`
/// where it reports an error.
pub uninterp spec fn root(operand: i128) -> Option<i128>;

/// `I64F64::checked_from_num` on a `u128`: the integer shifted up by 64 bits,
/// and `None` from 2^63 on.
#[verifier::external_body]
pub(crate) fn checked_promote(n: u128) -> (r: Option<i128>)
    ensures
        r == promoted(n),
{
    match I64F64::checked_from_num(n) {
        Some(v) => Some(v.to_bits()),
        None => None,
    }
}

/// `I64F64::checked_to_num` to a `u128`, on a number that is not negative:
/// the fraction is dropped, and there is always a result.
#[verifier::external_body]
pub(crate) fn checked_truncate(a: i128) -> (r: Option<u128>)
    requires
        a >= 0,
    ensures
        r == Some(truncated(a)),
{
    I64F64::from_bits(a).checked_to_num::<u128>()
}

/// `I64F64::checked_add`: the patterns are added as integers, and `None` is
/// returned on overflow.
#[verifier::external_body]
pub(crate) fn checked_sum(a: i128, b: i128) -> (r: Option<i128>)
    ensures
        r == sum(a, b),
{
    match I64F64::from_bits(a).checked_add(I64F64::from_bits(b)) {
        Some(v) => Some(v.to_bits()),
        None => None,
    }
}

/// `I64F64::checked_sub`: the patterns are subtracted as integers, and `None`
/// is returned on overflow.
#[verifier::external_body]
pub(crate) fn checked_difference(a: i128, b: i128) -> (r: Option<i128>)
    ensures
        r == difference(a, b),
{
    match I64F64::from_bits(a).checked_sub(I64F64::from_bits(b)) {
        Some(v) => Some(v.to_bits()),
        None => None,
    }
}

/// `I64F64::checked_mul` on operands that are not negative: the full product
/// of the patterns shifted down by 64 bits, and `None` where that needs more
/// than 127 bits.
#[verifier::external_body]
pub(crate) fn checked_product(a: i128, b: i128) -> (r: Option<i128>)
    requires
        a >= 0,
        b >= 0,
    ensures
        r == product(a, b),
{
    match I64F64::from_bits(a).checked_mul(I64F64::from_bits(b)) {
        Some(v) => Some(v.to_bits()),
        None => None,
    }
}

/// `I64F64::checked_div` on operands that are not negative: the dividend's
/// pattern shifted up by 64 bits and divided by the divisor's, and `None` for
/// a zero divisor or where the quotient needs more than 127 bits.
#[verifier::external_body]
pub(crate) fn checked_quotient(a: i128, b: i128) -> (r: Option<i128>)
    requires
        a >= 0,
        b >= 0,
    ensures
        r == quotient(a, b),
{
    match I64F64::from_bits(a).checked_div(I64F64::from_bits(b)) {
        Some(v) => Some(v.to_bits()),
        None => None,
    }
}

/// `substrate_fixed::transcendental::sqrt` from `I64F64` to `I64F64`, on an
/// operand of at least one. Nothing is claimed of the value it computes but
/// that it depends on the operand alone.
#[verifier::external_body]
pub(crate) fn checked_root(operand: i128) -> (r: Option<i128>)
    requires
        operand >= ONE,
    ensures
        r == root(operand),
{
    match transcendental::sqrt::<I64F64, I64F64>(I64F64::from_bits(operand)) {
        Ok(v) => Some(v.to_bits()),
        Err(_) => None,
    }
}

} // verus!
