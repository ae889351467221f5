//! Exact, bit-level facts about IEEE-754 single-precision values.
//!
//! The classifier stores every real number as the `u32` bit pattern of a
//! single-precision value.  Ordering, sign tests and negation of such
//! values are exact functions of the bit pattern, so they can be stated
//! and verified here without any floating-point arithmetic: negation
//! flips the sign bit, and the comparison of two non-NaN values agrees
//! with the signed comparison of their sign-magnitude encodings (with
//! both zeros mapping to the same rank).

use vstd::prelude::*;

verus! {

/// Bit pattern of positive one.
pub const POS_ONE_BITS: u32 = 0x3F80_0000;

/// Bit pattern of negative one.
pub const NEG_ONE_BITS: u32 = 0xBF80_0000;

/// Bit pattern of positive zero.
pub const ZERO_BITS: u32 = 0x0000_0000;

/// Mask of the sign bit.
pub const SIGN_MASK: u32 = 0x8000_0000;

/// Mask of the exponent and mantissa (the magnitude).
pub const MAG_MASK: u32 = 0x7FFF_FFFF;

/// Magnitude of an infinity: exponent all ones, mantissa zero.
pub const INF_MAG: u32 = 0x7F80_0000;

/// The magnitude bits (exponent and mantissa) of a value.
pub open spec fn mag_bits(b: u32) -> u32 {
    b & MAG_MASK
}

/// Whether the sign bit is set.
pub open spec fn sign_bit(b: u32) -> bool {
    b & SIGN_MASK != 0
}

/// Whether the pattern encodes a NaN: exponent all ones with a nonzero
/// mantissa, which is exactly a magnitude above that of infinity.
pub open spec fn is_nan_bits(b: u32) -> bool {
    mag_bits(b) > INF_MAG
}

/// Rank of a non-NaN value in the numeric order.  For single-precision
/// values the order on magnitudes within one sign is the order on the raw
/// magnitude bits, so this signed rank orders all non-NaN values, and the
/// two zeros share rank zero.
pub open spec fn ord_bits(b: u32) -> int {
    if sign_bit(b) {
        -(mag_bits(b) as int)
    } else {
        mag_bits(b) as int
    }
}

/// The strict `>` of single-precision values on bit patterns: false
/// whenever either side is NaN, otherwise the order of the ranks.
pub open spec fn gt_bits(a: u32, b: u32) -> bool {
    &&& !is_nan_bits(a)
    &&& !is_nan_bits(b)
    &&& ord_bits(a) > ord_bits(b)
}

/// The strict `<` of single-precision values on bit patterns.
pub open spec fn lt_bits(a: u32, b: u32) -> bool {
    gt_bits(b, a)
}

/// Negation of a single-precision value: the sign bit flips and nothing
/// else changes.
pub open spec fn neg_bits(b: u32) -> u32 {
    b ^ SIGN_MASK
}

/// Runtime NaN test on a bit pattern.
pub fn f32_bits_is_nan(b: u32) -> (r: bool)
    ensures
        r == is_nan_bits(b),
{
    (b & MAG_MASK) > INF_MAG
}

/// Runtime strict `>` on bit patterns, false on NaN, exact elsewhere.
pub fn f32_bits_gt(a: u32, b: u32) -> (r: bool)
    ensures
        r == gt_bits(a, b),
{
    if f32_bits_is_nan(a) || f32_bits_is_nan(b) {
        false
    } else {
        let neg_a = a & SIGN_MASK != 0;
        let neg_b = b & SIGN_MASK != 0;
        let mag_a = a & MAG_MASK;
        let mag_b = b & MAG_MASK;
        if !neg_a && !neg_b {
            mag_a > mag_b
        } else if !neg_a && neg_b {
            mag_a != 0 || mag_b != 0
        } else if neg_a && !neg_b {
            false
        } else {
            mag_a < mag_b
        }
    }
}

/// Runtime test for a strictly positive value.
pub fn f32_bits_is_positive(b: u32) -> (r: bool)
    ensures
        r == gt_bits(b, ZERO_BITS),
{
    proof {
        assert(0u32 & 0x7FFF_FFFFu32 == 0u32 && 0u32 & 0x8000_0000u32 == 0u32) by (bit_vector);
    }
    f32_bits_gt(b, ZERO_BITS)
}

/// Runtime negation: flip the sign bit.
pub fn f32_bits_negate(b: u32) -> (r: u32)
    ensures
        r == neg_bits(b),
{
    b ^ SIGN_MASK
}

/// Negation keeps the magnitude, flips the sign, and maps NaN to NaN;
/// applied twice it gives the value back.
pub proof fn lemma_neg_bits(b: u32)
    ensures
        mag_bits(neg_bits(b)) == mag_bits(b),
        sign_bit(neg_bits(b)) == !sign_bit(b),
        is_nan_bits(neg_bits(b)) == is_nan_bits(b),
        neg_bits(neg_bits(b)) == b,
{
    assert((b ^ 0x8000_0000u32) & 0x7FFF_FFFFu32 == b & 0x7FFF_FFFFu32) by (bit_vector);
    assert(((b ^ 0x8000_0000u32) & 0x8000_0000u32 != 0) == !(b & 0x8000_0000u32 != 0))
        by (bit_vector);
    assert((b ^ 0x8000_0000u32) ^ 0x8000_0000u32 == b) by (bit_vector);
}

} // verus!
