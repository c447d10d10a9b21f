use vstd::prelude::*;

use rustc_apfloat::Float;

verus! {

// A number of the language is an IEEE-754 binary64 value, carried as its
// 64-bit pattern. Arithmetic on such patterns is done by rustc_apfloat's
// software implementation of binary64; each operation is deterministic in
// its operand bits, so its result is a function of the bits and gets a name
// below. Comparison is stated exactly over the bits and implemented here.

/// The bit pattern of 1.0, which comparisons push for "true".
pub const TRUE_BITS: u64 = 0x3FF0000000000000;

/// The bit pattern of +0.0, which comparisons push for "false".
pub const FALSE_BITS: u64 = 0;

/// The bit pattern of 2^53, the scale of the unit-interval random draw.
pub const TWO_POW_53_BITS: u64 = 0x4340000000000000;

pub uninterp spec fn add_bits_of(a: u64, b: u64) -> u64;

pub uninterp spec fn sub_bits_of(a: u64, b: u64) -> u64;

pub uninterp spec fn mul_bits_of(a: u64, b: u64) -> u64;

pub uninterp spec fn div_bits_of(a: u64, b: u64) -> u64;

pub uninterp spec fn mod_bits_of(a: u64, b: u64) -> u64;

pub uninterp spec fn round_bits_of(a: u64) -> u64;

pub uninterp spec fn from_int_bits_of(x: u64) -> u64;

pub uninterp spec fn parse_num_of(s: Seq<char>) -> Option<u64>;

/// Relies on rustc_apfloat::ieee::Double::add_r with round-to-nearest-even,
/// the IEEE-754 default: the sum's bits depend on the operand bits alone.
#[verifier::external_body]
pub(crate) fn num_add(a: u64, b: u64) -> (r: u64)
    ensures
        r == add_bits_of(a, b),
{
    let x = rustc_apfloat::ieee::Double::from_bits(a as u128);
    let y = rustc_apfloat::ieee::Double::from_bits(b as u128);
    x.add_r(y, rustc_apfloat::Round::NearestTiesToEven).value.to_bits() as u64
}

/// Relies on rustc_apfloat::ieee::Double::sub_r with round-to-nearest-even:
/// the difference's bits depend on the operand bits alone.
#[verifier::external_body]
pub(crate) fn num_sub(a: u64, b: u64) -> (r: u64)
    ensures
        r == sub_bits_of(a, b),
{
    let x = rustc_apfloat::ieee::Double::from_bits(a as u128);
    let y = rustc_apfloat::ieee::Double::from_bits(b as u128);
    x.sub_r(y, rustc_apfloat::Round::NearestTiesToEven).value.to_bits() as u64
}

/// Relies on rustc_apfloat::ieee::Double::mul_r with round-to-nearest-even:
/// the product's bits depend on the operand bits alone.
#[verifier::external_body]
pub(crate) fn num_mul(a: u64, b: u64) -> (r: u64)
    ensures
        r == mul_bits_of(a, b),
{
    let x = rustc_apfloat::ieee::Double::from_bits(a as u128);
    let y = rustc_apfloat::ieee::Double::from_bits(b as u128);
    x.mul_r(y, rustc_apfloat::Round::NearestTiesToEven).value.to_bits() as u64
}

/// Relies on rustc_apfloat::ieee::Double::div_r with round-to-nearest-even:
/// the quotient's bits depend on the operand bits alone. Division by zero
/// yields an infinity or NaN per IEEE-754; it is not a failure.
#[verifier::external_body]
pub(crate) fn num_div(a: u64, b: u64) -> (r: u64)
    ensures
        r == div_bits_of(a, b),
{
    let x = rustc_apfloat::ieee::Double::from_bits(a as u128);
    let y = rustc_apfloat::ieee::Double::from_bits(b as u128);
    x.div_r(y, rustc_apfloat::Round::NearestTiesToEven).value.to_bits() as u64
}

/// Relies on rustc_apfloat::ieee::Double::c_fmod, the remainder with the
/// dividend's sign: its bits depend on the operand bits alone.
#[verifier::external_body]
pub(crate) fn num_mod(a: u64, b: u64) -> (r: u64)
    ensures
        r == mod_bits_of(a, b),
{
    let x = rustc_apfloat::ieee::Double::from_bits(a as u128);
    let y = rustc_apfloat::ieee::Double::from_bits(b as u128);
    x.c_fmod(y).value.to_bits() as u64
}

/// Relies on rustc_apfloat::ieee::Double::round_to_integral with ties away
/// from zero, the rounding of the `int` built-in: its bits depend on the
/// argument bits alone.
#[verifier::external_body]
pub(crate) fn num_round(a: u64) -> (r: u64)
    ensures
        r == round_bits_of(a),
{
    let x = rustc_apfloat::ieee::Double::from_bits(a as u128);
    x.round_to_integral(rustc_apfloat::Round::NearestTiesToAway).value.to_bits() as u64
}

/// Relies on rustc_apfloat::ieee::Double::from_u128_r with round-to-nearest-even:
/// the nearest binary64 to an unsigned integer, a function of the integer alone.
#[verifier::external_body]
pub(crate) fn num_from_u64(x: u64) -> (r: u64)
    ensures
        r == from_int_bits_of(x),
{
    rustc_apfloat::ieee::Double::from_u128(x as u128).value.to_bits() as u64
}

/// Relies on rustc_apfloat's FromStr for ieee::Double, round-to-nearest-even:
/// the correctly rounded value of a decimal literal, a function of the text
/// alone; None where the text is not a number.
#[verifier::external_body]
pub(crate) fn num_parse(s: &str) -> (r: Option<u64>)
    ensures
        r == parse_num_of(s@),
{
    match s.parse::<rustc_apfloat::ieee::Double>() {
        Ok(d) => Some(d.to_bits() as u64),
        Err(_) => None,
    }
}

/// Relies on rand::random for u64: a fresh draw each call; nothing is
/// promised of the value.
#[verifier::external_body]
pub(crate) fn rand_u64() -> u64 {
    rand::random::<u64>()
}

/// Whether a bit pattern encodes a NaN: all exponent bits set, mantissa not zero.
pub open spec fn spec_is_nan(b: u64) -> bool {
    (b >> 52) & 0x7FF == 0x7FF && b & 0xFFFFFFFFFFFFF != 0
}

/// The magnitude bits: everything but the sign.
pub open spec fn spec_magnitude(b: u64) -> u64 {
    b & 0x7FFFFFFFFFFFFFFF
}

/// The ordering key of a non-NaN pattern: its magnitude, negated for a set
/// sign bit. Two patterns compare as their binary64 values do, with both
/// zeroes at key 0.
pub open spec fn spec_key(b: u64) -> int {
    if b >> 63 == 1 {
        -(spec_magnitude(b) as int)
    } else {
        spec_magnitude(b) as int
    }
}

/// IEEE-754 ordered equality of two patterns: false on any NaN, and both
/// zeroes equal.
pub open spec fn spec_float_eq(a: u64, b: u64) -> bool {
    !spec_is_nan(a) && !spec_is_nan(b) && spec_key(a) == spec_key(b)
}

/// IEEE-754 ordered less-than.
pub open spec fn spec_float_lt(a: u64, b: u64) -> bool {
    !spec_is_nan(a) && !spec_is_nan(b) && spec_key(a) < spec_key(b)
}

/// IEEE-754 ordered less-or-equal.
pub open spec fn spec_float_le(a: u64, b: u64) -> bool {
    !spec_is_nan(a) && !spec_is_nan(b) && spec_key(a) <= spec_key(b)
}

fn exec_is_nan(b: u64) -> (r: bool)
    ensures
        r == spec_is_nan(b),
{
    (b >> 52) & 0x7FF == 0x7FF && b & 0xFFFFFFFFFFFFF != 0
}

fn exec_key(b: u64) -> (k: i128)
    ensures
        k as int == spec_key(b),
{
    let mag = b & 0x7FFFFFFFFFFFFFFF;
    if b >> 63 == 1 {
        -(mag as i128)
    } else {
        mag as i128
    }
}

/// Ordered equality of two binary64 bit patterns.
pub fn float_eq(a: u64, b: u64) -> (r: bool)
    ensures
        r == spec_float_eq(a, b),
{
    !exec_is_nan(a) && !exec_is_nan(b) && exec_key(a) == exec_key(b)
}

/// Ordered less-than of two binary64 bit patterns.
pub fn float_lt(a: u64, b: u64) -> (r: bool)
    ensures
        r == spec_float_lt(a, b),
{
    !exec_is_nan(a) && !exec_is_nan(b) && exec_key(a) < exec_key(b)
}

/// Ordered less-or-equal of two binary64 bit patterns.
pub fn float_le(a: u64, b: u64) -> (r: bool)
    ensures
        r == spec_float_le(a, b),
{
    !exec_is_nan(a) && !exec_is_nan(b) && exec_key(a) <= exec_key(b)
}

/// A uniform draw from the unit interval: 53 fresh random bits scaled by
/// 2^-53, the usual construction of a binary64 in [0, 1).
pub(crate) fn rand_unit_bits() -> u64 {
    let x = rand_u64();
    num_div(num_from_u64(x >> 11), TWO_POW_53_BITS)
}

} // verus!
