//! Order and value model for IEEE 754 binary32 bit patterns.
//!
//! The library never computes with floating-point values. Every scalar that
//! the renderer treats as a real number is carried as its raw 32-bit pattern
//! (`u32`). Two things are needed of such patterns:
//!
//! - an order, for bounding-box folds and emissive tests: [`order_key`] maps
//!   a pattern to an integer monotonically in the represented value (the
//!   IEEE 754 `totalOrder` relation restricted to 32-bit patterns), so that
//!   comparing keys compares values;
//! - a value model, for the texture decoders: a finite pattern represents
//!   the rational `sign * mantissa(b) * 2^(pow_exp(b) - 173)`, stated here
//!   through the field extractors [`bits_exp`], [`bits_frac`] and
//!   [`mantissa`].

use vstd::prelude::*;

verus! {

/// Bit pattern of positive infinity.
pub const POS_INF_BITS: u32 = 0x7F80_0000;

/// Bit pattern of negative infinity.
pub const NEG_INF_BITS: u32 = 0xFF80_0000;

/// Bit pattern of one.
pub const ONE_BITS: u32 = 0x3F80_0000;

/// Bit pattern of positive zero.
pub const ZERO_BITS: u32 = 0;

/// Reserved sentinel index meaning "no reference". Never a valid slot, and
/// deliberately not zero, so that a cleared field cannot alias slot zero.
pub const NO_INDEX: u32 = 0xFFFF_FFFF;

/// Total order on binary32 bit patterns, as an integer key: monotone in the
/// represented value, with negative patterns (sign bit set) reversed below
/// the positive ones. Ordered finite values compare like their keys do.
pub open spec fn order_key(b: u32) -> int {
    if b < 0x8000_0000 {
        b + 0x8000_0000
    } else {
        0xFFFF_FFFFu32 - b
    }
}

/// The pattern with the smaller order key (the componentwise minimum used by
/// bounding-box folds).
pub open spec fn spec_min_bits(a: u32, b: u32) -> u32 {
    if order_key(a) <= order_key(b) {
        a
    } else {
        b
    }
}

/// The pattern with the larger order key.
pub open spec fn spec_max_bits(a: u32, b: u32) -> u32 {
    if order_key(a) >= order_key(b) {
        a
    } else {
        b
    }
}

/// A pattern represents a value strictly greater than zero exactly when it
/// lies between the smallest positive subnormal and positive infinity.
/// Not-a-number patterns and both zeros are excluded.
pub open spec fn is_positive(b: u32) -> bool {
    1 <= b <= POS_INF_BITS
}

/// Exponent field (8 bits).
pub open spec fn bits_exp(b: u32) -> int {
    (b as int / 0x80_0000) % 0x100
}

/// Fraction field (low 23 bits).
pub open spec fn bits_frac(b: u32) -> int {
    b as int % 0x80_0000
}

/// Sign field.
pub open spec fn bits_sign(b: u32) -> int {
    b as int / 0x8000_0000
}

/// A finite pattern: exponent field below the infinity/not-a-number mark.
pub open spec fn is_finite(b: u32) -> bool {
    bits_exp(b) < 255
}

/// Effective mantissa of a finite pattern: the fraction with the hidden bit
/// restored on normal numbers.
pub open spec fn mantissa(b: u32) -> int {
    if bits_exp(b) == 0 {
        bits_frac(b)
    } else {
        bits_frac(b) + 0x80_0000
    }
}

/// Power-of-two weight of [`mantissa`], as a nonnegative exponent: a finite
/// pattern `b` represents `mantissa(b) * 2^(pow_exp(b)) / 2^173` (negated
/// when the sign bit is set). The fixed offset 173 is 150 + 23: subnormals
/// (exponent field zero) weigh `2^(1-150)` per mantissa unit, normals
/// `2^(e-150)`, and adding 23 keeps the exponent nonnegative over the whole
/// range.
pub open spec fn pow_exp(b: u32) -> nat {
    if bits_exp(b) == 0 {
        24
    } else {
        (bits_exp(b) + 23) as nat
    }
}

/// The order key, computed.
pub fn key_of(b: u32) -> (k: u32)
    ensures
        k == order_key(b),
{
    if b < 0x8000_0000 {
        b + 0x8000_0000
    } else {
        0xFFFF_FFFF - b
    }
}

/// Order test on patterns: does `a` represent a value at most that of `b`
/// under the total order?
pub fn le_bits(a: u32, b: u32) -> (r: bool)
    ensures
        r == (order_key(a) <= order_key(b)),
{
    key_of(a) <= key_of(b)
}

/// Componentwise minimum step of a bounding-box fold.
pub fn min_bits(a: u32, b: u32) -> (r: u32)
    ensures
        r == spec_min_bits(a, b),
{
    if le_bits(a, b) {
        a
    } else {
        b
    }
}

/// Componentwise maximum step of a bounding-box fold.
pub fn max_bits(a: u32, b: u32) -> (r: u32)
    ensures
        r == spec_max_bits(a, b),
{
    if key_of(a) >= key_of(b) {
        a
    } else {
        b
    }
}

/// Strict-positivity test used for the emissive classification: true exactly
/// of patterns whose value is greater than zero.
pub fn positive_bits(b: u32) -> (r: bool)
    ensures
        r == is_positive(b),
{
    1 <= b && b <= POS_INF_BITS
}

} // verus!
