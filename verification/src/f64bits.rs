//! IEEE-754 double-precision values carried as raw bit patterns.
//!
//! The finalization logic never performs float arithmetic itself.  It moves
//! these values through the result tree, orders range bounds by the IEEE
//! order (computed directly on the bits), and derives averages through the
//! software float implementation of `rustc_apfloat`.

use vstd::prelude::*;
use rustc_apfloat::Float;
use rustc_apfloat::ieee::Double;

verus! {

/// A double-precision IEEE-754 value, held as its raw bit pattern.
#[derive(Clone, Copy, Debug, PartialEq, Eq, Structural)]
pub struct F64Bits(pub u64);

/// Exponent field of a double's bit pattern.
pub const F64_EXP_MASK: u64 = 0x7FF0_0000_0000_0000;

/// Mantissa field of a double's bit pattern.
pub const F64_MANTISSA_MASK: u64 = 0x000F_FFFF_FFFF_FFFF;

/// Everything but the sign bit.
pub const F64_MAGNITUDE_MASK: u64 = 0x7FFF_FFFF_FFFF_FFFF;

/// The sign bit.
pub const F64_SIGN_MASK: u64 = 0x8000_0000_0000_0000;

/// Bit pattern of the smallest finite double.  An absent range bound is
/// compared as this sentinel, but stays absent in the stored field.
pub const F64_MIN_BITS: u64 = 0xFFEF_FFFF_FFFF_FFFF;

/// Bit pattern of positive infinity: the sentinel an empty stats
/// accumulator holds as its minimum.
pub const F64_INF_POS_BITS: u64 = 0x7FF0_0000_0000_0000;

/// Bit pattern of negative infinity: the sentinel an empty stats
/// accumulator holds as its maximum.
pub const F64_INF_NEG_BITS: u64 = 0xFFF0_0000_0000_0000;

/// Whether the bit pattern encodes a NaN: all exponent bits set and a
/// nonzero mantissa.
pub open spec fn is_nan_bits(b: u64) -> bool {
    b & F64_EXP_MASK == F64_EXP_MASK && b & F64_MANTISSA_MASK != 0
}

/// The sign bit of the pattern.
pub open spec fn sign_bits(b: u64) -> bool {
    b & F64_SIGN_MASK != 0
}

/// The pattern with the sign bit cleared.
pub open spec fn magnitude_bits(b: u64) -> u64 {
    b & F64_MAGNITUDE_MASK
}

/// The strict IEEE `<` on the doubles encoded by `a` and `b`; `false`
/// whenever either is NaN, so incomparable bounds order as equal rather
/// than raising an error.  Positive and negative zero are equal.  For two
/// values of one sign the order of the magnitudes decides: for a fixed
/// sign the IEEE encoding orders doubles exactly as their magnitude bits.
pub open spec fn f64_lt(a: u64, b: u64) -> bool {
    if is_nan_bits(a) || is_nan_bits(b) {
        false
    } else if magnitude_bits(a) == 0 && magnitude_bits(b) == 0 {
        false
    } else if sign_bits(a) != sign_bits(b) {
        sign_bits(a)
    } else if !sign_bits(a) {
        magnitude_bits(a) < magnitude_bits(b)
    } else {
        magnitude_bits(b) < magnitude_bits(a)
    }
}

/// Executable mirror of [`f64_lt`].
pub fn f64_lt_exec(a: u64, b: u64) -> (r: bool)
    ensures
        r == f64_lt(a, b),
{
    let nan_a = a & F64_EXP_MASK == F64_EXP_MASK && a & F64_MANTISSA_MASK != 0;
    let nan_b = b & F64_EXP_MASK == F64_EXP_MASK && b & F64_MANTISSA_MASK != 0;
    if nan_a || nan_b {
        false
    } else if a & F64_MAGNITUDE_MASK == 0 && b & F64_MAGNITUDE_MASK == 0 {
        false
    } else if (a & F64_SIGN_MASK != 0) != (b & F64_SIGN_MASK != 0) {
        a & F64_SIGN_MASK != 0
    } else if a & F64_SIGN_MASK == 0 {
        a & F64_MAGNITUDE_MASK < b & F64_MAGNITUDE_MASK
    } else {
        b & F64_MAGNITUDE_MASK < a & F64_MAGNITUDE_MASK
    }
}

/// The quotient, under IEEE double arithmetic with round to nearest (ties
/// to even), of the doubles encoded by the two bit patterns, as a bit
/// pattern.  Named rather than written out: the result is a function of
/// the two arguments alone and is computed by `rustc_apfloat`.
pub uninterp spec fn quot_bits(a: u64, b: u64) -> u64;

/// The bit pattern of the double nearest to the unsigned integer `n`
/// (round to nearest, ties to even), as computed by `rustc_apfloat`.
pub uninterp spec fn f64_bits_of_u64(n: u64) -> u64;

/// The bit pattern of the average of a running sum (a double, given by its
/// bits) over `count` contributing values: the IEEE quotient of the sum by
/// the double nearest to `count`.
pub open spec fn avg_bits(sum: u64, count: u64) -> u64 {
    quot_bits(sum, f64_bits_of_u64(count))
}

/// Relies on `rustc_apfloat::ieee::Double`: `from_bits` reads a double from
/// its bit pattern, the `/` operator is IEEE division with round to nearest
/// (ties to even) — the same rounding hardware doubles use — and `to_bits`
/// returns the quotient's bit pattern.  The result depends on the two
/// arguments alone.
#[verifier::external_body]
pub(crate) fn f64_bits_div(a: u64, b: u64) -> (r: u64)
    ensures
        r == quot_bits(a, b),
{
    let q = Double::from_bits(a as u128) / Double::from_bits(b as u128);
    q.value.to_bits() as u64
}

/// Relies on `rustc_apfloat::ieee::Double::from_u128`: converts an unsigned
/// integer to the nearest double (round to nearest, ties to even) and
/// depends on the argument alone.
#[verifier::external_body]
pub(crate) fn f64_bits_from_u64(n: u64) -> (r: u64)
    ensures
        r == f64_bits_of_u64(n),
{
    Double::from_u128(n as u128).value.to_bits() as u64
}

} // verus!
