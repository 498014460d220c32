//! IEEE-754 binary64 numbers, represented by their bit pattern.
//!
//! Equality, ordering and negation of doubles are pure functions of the
//! bit pattern and are implemented and specified here directly: for two
//! values that are not NaN, the encoding orders like a sign-magnitude
//! integer, so the comparisons reduce to integer comparisons on the
//! sign bit and the low 63 bits.  Rounding arithmetic and decimal
//! conversion are delegated to `rustc_apfloat` behind trusted wrappers;
//! their results are given names (`add_bits`, ..) that the rest of the
//! library's contracts use.

use vstd::prelude::*;
use rustc_apfloat::Float;

verus! {

/// Sign bit of a binary64 value.
pub const SIGN_MASK: u64 = 0x8000_0000_0000_0000;
/// Exponent field of a binary64 value.
pub const EXP_MASK: u64 = 0x7FF0_0000_0000_0000;
/// Fraction field of a binary64 value.
pub const FRAC_MASK: u64 = 0x000F_FFFF_FFFF_FFFF;
/// Everything but the sign bit: the magnitude.
pub const MAG_MASK: u64 = 0x7FFF_FFFF_FFFF_FFFF;

/// A binary64 value is NaN when its exponent field is all ones and its
/// fraction field is not zero.
pub open spec fn spec_is_nan(a: u64) -> bool {
    a & EXP_MASK == EXP_MASK && a & FRAC_MASK != 0
}

/// The sign bit is set: the value is negative (or a negative zero/NaN).
pub open spec fn spec_is_neg(a: u64) -> bool {
    a & SIGN_MASK != 0
}

/// The magnitude of the value: the bit pattern without the sign.
pub open spec fn spec_mag(a: u64) -> u64 {
    a & MAG_MASK
}

/// IEEE equality: false if either side is NaN; positive and negative
/// zero are equal; otherwise the bit patterns must coincide.
pub open spec fn spec_num_eq(a: u64, b: u64) -> bool {
    &&& !spec_is_nan(a)
    &&& !spec_is_nan(b)
    &&& (a == b || (spec_mag(a) == 0 && spec_mag(b) == 0))
}

/// IEEE `<`: false if either side is NaN; otherwise by sign, then by
/// magnitude (which the binary64 encoding orders like an integer).
pub open spec fn spec_num_lt(a: u64, b: u64) -> bool {
    &&& !spec_is_nan(a)
    &&& !spec_is_nan(b)
    &&& if spec_is_neg(a) {
            if spec_is_neg(b) {
                spec_mag(a) > spec_mag(b)
            } else {
                // -0 < +0 is false; any other negative is below any positive.
                !(spec_mag(a) == 0 && spec_mag(b) == 0)
            }
        } else {
            if spec_is_neg(b) {
                false
            } else {
                spec_mag(a) < spec_mag(b)
            }
        }
}

/// IEEE `<=`.
pub open spec fn spec_num_le(a: u64, b: u64) -> bool {
    spec_num_lt(a, b) || spec_num_eq(a, b)
}

/// IEEE negation flips the sign bit, NaN included.
pub open spec fn spec_num_neg(a: u64) -> u64 {
    a ^ SIGN_MASK
}

pub fn num_is_nan(a: u64) -> (r: bool)
    ensures
        r == spec_is_nan(a),
{
    a & EXP_MASK == EXP_MASK && a & FRAC_MASK != 0
}

pub fn num_eq(a: u64, b: u64) -> (r: bool)
    ensures
        r == spec_num_eq(a, b),
{
    !num_is_nan(a) && !num_is_nan(b) && (a == b || (a & MAG_MASK == 0 && b & MAG_MASK == 0))
}

pub fn num_lt(a: u64, b: u64) -> (r: bool)
    ensures
        r == spec_num_lt(a, b),
{
    if num_is_nan(a) || num_is_nan(b) {
        false
    } else if a & SIGN_MASK != 0 {
        if b & SIGN_MASK != 0 {
            a & MAG_MASK > b & MAG_MASK
        } else {
            !(a & MAG_MASK == 0 && b & MAG_MASK == 0)
        }
    } else {
        if b & SIGN_MASK != 0 {
            false
        } else {
            a & MAG_MASK < b & MAG_MASK
        }
    }
}

pub fn num_le(a: u64, b: u64) -> (r: bool)
    ensures
        r == spec_num_le(a, b),
{
    num_lt(a, b) || num_eq(a, b)
}

pub fn num_gt(a: u64, b: u64) -> (r: bool)
    ensures
        r == spec_num_lt(b, a),
{
    num_lt(b, a)
}

pub fn num_ge(a: u64, b: u64) -> (r: bool)
    ensures
        r == spec_num_le(b, a),
{
    num_le(b, a)
}

pub fn num_neg(a: u64) -> (r: u64)
    ensures
        r == spec_num_neg(a),
{
    a ^ SIGN_MASK
}

/// A number compares equal to itself exactly when it is not NaN.
pub proof fn lemma_num_eq_self(v: u64)
    ensures
        spec_num_eq(v, v) == !spec_is_nan(v),
{
}

/// What `rustc_apfloat`'s binary64 addition returns on the given bit patterns.
pub uninterp spec fn add_bits(a: u64, b: u64) -> u64;

/// What `rustc_apfloat`'s binary64 subtraction returns on the given bit patterns.
pub uninterp spec fn sub_bits(a: u64, b: u64) -> u64;

/// What `rustc_apfloat`'s binary64 multiplication returns on the given bit patterns.
pub uninterp spec fn mul_bits(a: u64, b: u64) -> u64;

/// What `rustc_apfloat`'s binary64 division returns on the given bit patterns.
pub uninterp spec fn div_bits(a: u64, b: u64) -> u64;

/// What `rustc_apfloat`'s binary64 decimal conversion returns on the
/// given text: `None` where the text is not a decimal number.
pub uninterp spec fn double_of_decimal(s: Seq<char>) -> Option<u64>;

/// Relies on `rustc_apfloat::ieee::Double`'s `Add` (round to nearest,
/// ties to even): the result is a function of the operand bits alone.
#[verifier::external_body]
pub fn num_add(a: u64, b: u64) -> (r: u64)
    ensures
        r == add_bits(a, b),
{
    let x = rustc_apfloat::ieee::Double::from_bits(a as u128);
    let y = rustc_apfloat::ieee::Double::from_bits(b as u128);
    (x + y).value.to_bits() as u64
}

/// Relies on `rustc_apfloat::ieee::Double`'s `Sub` (round to nearest,
/// ties to even): the result is a function of the operand bits alone.
#[verifier::external_body]
pub fn num_sub(a: u64, b: u64) -> (r: u64)
    ensures
        r == sub_bits(a, b),
{
    let x = rustc_apfloat::ieee::Double::from_bits(a as u128);
    let y = rustc_apfloat::ieee::Double::from_bits(b as u128);
    (x - y).value.to_bits() as u64
}

/// Relies on `rustc_apfloat::ieee::Double`'s `Mul` (round to nearest,
/// ties to even): the result is a function of the operand bits alone.
#[verifier::external_body]
pub fn num_mul(a: u64, b: u64) -> (r: u64)
    ensures
        r == mul_bits(a, b),
{
    let x = rustc_apfloat::ieee::Double::from_bits(a as u128);
    let y = rustc_apfloat::ieee::Double::from_bits(b as u128);
    (x * y).value.to_bits() as u64
}

/// Relies on `rustc_apfloat::ieee::Double`'s `Div` (round to nearest,
/// ties to even): the result is a function of the operand bits alone.
/// Division by zero follows IEEE-754 (infinities and NaN), untrapped.
#[verifier::external_body]
pub fn num_div(a: u64, b: u64) -> (r: u64)
    ensures
        r == div_bits(a, b),
{
    let x = rustc_apfloat::ieee::Double::from_bits(a as u128);
    let y = rustc_apfloat::ieee::Double::from_bits(b as u128);
    (x / y).value.to_bits() as u64
}

/// Relies on `rustc_apfloat::ieee::Double`'s `FromStr` (correctly
/// rounded decimal conversion): success and value depend on the
/// characters alone.
#[verifier::external_body]
pub fn num_from_decimal(s: &str) -> (r: Option<u64>)
    ensures
        r == double_of_decimal(s@),
{
    match s.parse::<rustc_apfloat::ieee::Double>() {
        Ok(v) => Some(v.to_bits() as u64),
        Err(_) => None,
    }
}

} // verus!
