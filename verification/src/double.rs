//! Decimal numbers. A decimal value is carried as the 64-bit pattern of an
//! IEEE 754 double; the arithmetic on such patterns is done in software by
//! `rustc_apfloat`, rounding to nearest with ties to even.

use vstd::prelude::*;
use rustc_apfloat::ieee::Double;
use rustc_apfloat::{Float, Round};
use crate::literal::is_decimal_literal;

verus! {

/// The bit pattern of the sum of the doubles with bit patterns `a` and `b`.
pub uninterp spec fn double_sum(a: u64, b: u64) -> u64;

/// The bit pattern of the difference of the doubles with bit patterns `a`
/// and `b`.
pub uninterp spec fn double_difference(a: u64, b: u64) -> u64;

/// The bit pattern of the product of the doubles with bit patterns `a` and
/// `b`.
pub uninterp spec fn double_product(a: u64, b: u64) -> u64;

/// The bit pattern of the quotient of the doubles with bit patterns `a` and
/// `b`.
pub uninterp spec fn double_quotient(a: u64, b: u64) -> u64;

/// The bit pattern of the double nearest to the integer `i`.
pub uninterp spec fn double_of_int(i: i64) -> u64;

/// The bit pattern of the double nearest to the number that the decimal
/// literal `text` writes.
pub uninterp spec fn double_of_text(text: Seq<char>) -> u64;

/// Whether `bits` is the pattern of positive or negative zero: every bit
/// but the sign bit is clear.
pub open spec fn is_zero(bits: u64) -> bool {
    bits == 0 || bits == 0x8000_0000_0000_0000
}

/// Whether `bits` is the pattern of an infinity or of a NaN: every bit of
/// the exponent is set.
pub open spec fn is_infinite_or_nan(bits: u64) -> bool {
    bits & 0x7ff0_0000_0000_0000 == 0x7ff0_0000_0000_0000
}

/// Tells whether `bits` is the pattern of a zero.
pub fn is_zero_bits(bits: u64) -> (zero: bool)
    ensures
        zero == is_zero(bits),
{
    bits == 0 || bits == 0x8000_0000_0000_0000
}

/// Calls `rustc_apfloat`'s `Add` for `Double` on the doubles with the given
/// bit patterns: the result is the pattern of the value it returns, which
/// depends on the two operands alone.
#[verifier::external_body]
pub(crate) fn add_doubles(a: u64, b: u64) -> (bits: u64)
    ensures
        bits == double_sum(a, b),
{
    let sum = Double::from_bits(u128::from(a)) + Double::from_bits(u128::from(b));
    sum.value.to_bits() as u64
}

/// Calls `rustc_apfloat`'s `Sub` for `Double` on the doubles with the given
/// bit patterns: the result is the pattern of the value it returns.
#[verifier::external_body]
pub(crate) fn subtract_doubles(a: u64, b: u64) -> (bits: u64)
    ensures
        bits == double_difference(a, b),
{
    let difference = Double::from_bits(u128::from(a)) - Double::from_bits(u128::from(b));
    difference.value.to_bits() as u64
}

/// Calls `rustc_apfloat`'s `Mul` for `Double` on the doubles with the given
/// bit patterns: the result is the pattern of the value it returns.
#[verifier::external_body]
pub(crate) fn multiply_doubles(a: u64, b: u64) -> (bits: u64)
    ensures
        bits == double_product(a, b),
{
    let product = Double::from_bits(u128::from(a)) * Double::from_bits(u128::from(b));
    product.value.to_bits() as u64
}

/// Calls `rustc_apfloat`'s `Div` for `Double` on the doubles with the given
/// bit patterns: the result is the pattern of the value it returns. Division
/// by a zero is no error there: whatever the dividend, it gives an infinity
/// or a NaN.
#[verifier::external_body]
pub(crate) fn divide_doubles(a: u64, b: u64) -> (bits: u64)
    ensures
        bits == double_quotient(a, b),
        is_zero(b) ==> is_infinite_or_nan(bits),
{
    let quotient = Double::from_bits(u128::from(a)) / Double::from_bits(u128::from(b));
    quotient.value.to_bits() as u64
}

/// Calls `rustc_apfloat`'s `Float::from_i128` for `Double`: the result is
/// the pattern of the double it returns for `i`.
#[verifier::external_body]
pub(crate) fn int_to_double(i: i64) -> (bits: u64)
    ensures
        bits == double_of_int(i),
{
    Double::from_i128(i128::from(i)).value.to_bits() as u64
}

/// Calls `rustc_apfloat`'s `Float::from_str_r` for `Double`, rounding to
/// nearest, on a decimal literal: digits, one point, and digits or nothing
/// behind it. For such a text `from_str_r` finds no sign, no special word and
/// no `0x`, and reads it as a decimal number, which never fails; so the
/// result is `Some`, with the pattern of the double that it returns. Other
/// texts are kept out: `from_str_r` reads more forms than this library has,
/// and its counters are only sure to hold for texts of a bounded length.
#[verifier::external_body]
pub(crate) fn text_to_double(text: &str) -> (bits: Option<u64>)
    requires
        is_decimal_literal(text@),
    ensures
        bits == Some(double_of_text(text@)),
{
    match Double::from_str_r(text, Round::NearestTiesToEven) {
        Ok(parsed) => Some(parsed.value.to_bits() as u64),
        Err(_) => None,
    }
}

} // verus!
