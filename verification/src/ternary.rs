//! Ternary quantization of learned weights.
//!
//! Compression collapses every weight into one of negative one, zero and
//! positive one: a weight strictly above the threshold becomes positive
//! one, a weight strictly below the negated threshold becomes negative
//! one, and everything else — NaN included — becomes zero.

use vstd::prelude::*;

use crate::float_bits::{
    f32_bits_gt, f32_bits_negate, gt_bits, is_nan_bits, lt_bits, neg_bits, ord_bits, NEG_ONE_BITS,
    POS_ONE_BITS, ZERO_BITS,
};

verus! {

/// Bit pattern of one tenth, the fixed compression threshold the
/// classifier uses after a learning step.
pub const TERNARY_THRESHOLD_BITS: u32 = 0x3DCC_CCCD;

/// What quantization gives for one weight: strictly above the threshold
/// maps to positive one, strictly below the negated threshold to negative
/// one, everything else (NaN weights and NaN thresholds included) to zero.
pub open spec fn quantize_spec(weight: u32, threshold: u32) -> u32 {
    if gt_bits(weight, threshold) {
        POS_ONE_BITS
    } else if lt_bits(weight, neg_bits(threshold)) {
        NEG_ONE_BITS
    } else {
        ZERO_BITS
    }
}

/// Whether a bit pattern is one of the three ternary values.
pub open spec fn is_ternary_bits(b: u32) -> bool {
    b == POS_ONE_BITS || b == NEG_ONE_BITS || b == ZERO_BITS
}

/// A stateless mapper from a weight and a threshold to a ternary value.
pub struct TernaryQuantizer {}

impl TernaryQuantizer {
    /// Quantize one weight against one threshold.  Total: every input,
    /// NaN included, is mapped to a ternary value.
    pub fn quantize(weight: u32, threshold: u32) -> (r: u32)
        ensures
            r == quantize_spec(weight, threshold),
            is_ternary_bits(r),
    {
        if f32_bits_gt(weight, threshold) {
            POS_ONE_BITS
        } else if f32_bits_gt(f32_bits_negate(threshold), weight) {
            NEG_ONE_BITS
        } else {
            ZERO_BITS
        }
    }

    /// Quantize every weight of a buffer in place.
    pub fn compress(weights: &mut Vec<u32>, threshold: u32)
        ensures
            final(weights)@.len() == old(weights)@.len(),
            forall|i: int|
                0 <= i < final(weights)@.len() ==> final(weights)@[i] == quantize_spec(
                    old(weights)@[i],
                    threshold,
                ),
            forall|i: int|
                0 <= i < final(weights)@.len() ==> is_ternary_bits(#[trigger] final(weights)@[i]),
    {
        let n = weights.len();
        let mut i: usize = 0;
        while i < n
            invariant
                n == weights@.len(),
                weights@.len() == old(weights)@.len(),
                0 <= i <= n,
                forall|j: int|
                    0 <= j < i ==> weights@[j] == quantize_spec(old(weights)@[j], threshold),
                forall|j: int| i <= j < n ==> weights@[j] == old(weights)@[j],
            decreases n - i,
        {
            let q = Self::quantize(weights[i], threshold);
            weights.set(i, q);
            i = i + 1;
        }
    }
}

/// The three ternary values, ranked against a threshold whose rank lies
/// in the half-open interval from zero up to the rank of one.
proof fn lemma_ternary_ranks(threshold: u32)
    requires
        !is_nan_bits(threshold),
        0 <= ord_bits(threshold) < ord_bits(POS_ONE_BITS),
    ensures
        gt_bits(POS_ONE_BITS, threshold),
        lt_bits(NEG_ONE_BITS, neg_bits(threshold)),
        !gt_bits(ZERO_BITS, threshold),
        !lt_bits(ZERO_BITS, neg_bits(threshold)),
        !gt_bits(NEG_ONE_BITS, threshold),
        !lt_bits(POS_ONE_BITS, neg_bits(threshold)),
{
    assert(0x3F80_0000u32 & 0x7FFF_FFFFu32 == 0x3F80_0000u32 && 0x3F80_0000u32 & 0x8000_0000u32
        == 0u32) by (bit_vector);
    assert(0xBF80_0000u32 & 0x7FFF_FFFFu32 == 0x3F80_0000u32 && 0xBF80_0000u32 & 0x8000_0000u32
        != 0u32) by (bit_vector);
    assert(0u32 & 0x7FFF_FFFFu32 == 0u32 && 0u32 & 0x8000_0000u32 == 0u32) by (bit_vector);
    crate::float_bits::lemma_neg_bits(threshold);
}

/// Quantization is idempotent: for any threshold that is not NaN and
/// whose rank lies at or above zero and strictly below the rank of one
/// (the fixed compression threshold of one tenth qualifies), quantizing
/// a quantized weight again changes nothing.
pub proof fn lemma_quantize_idempotent(weight: u32, threshold: u32)
    requires
        !is_nan_bits(threshold),
        0 <= ord_bits(threshold) < ord_bits(POS_ONE_BITS),
    ensures
        quantize_spec(quantize_spec(weight, threshold), threshold) == quantize_spec(
            weight,
            threshold,
        ),
{
    lemma_ternary_ranks(threshold);
}

/// The fixed compression threshold satisfies the idempotence bounds.
pub proof fn lemma_default_threshold_in_range()
    ensures
        !is_nan_bits(TERNARY_THRESHOLD_BITS),
        0 <= ord_bits(TERNARY_THRESHOLD_BITS) < ord_bits(POS_ONE_BITS),
{
    assert(0x3DCC_CCCDu32 & 0x7FFF_FFFFu32 == 0x3DCC_CCCDu32 && 0x3DCC_CCCDu32 & 0x8000_0000u32
        == 0u32) by (bit_vector);
    assert(0x3F80_0000u32 & 0x7FFF_FFFFu32 == 0x3F80_0000u32 && 0x3F80_0000u32 & 0x8000_0000u32
        == 0u32) by (bit_vector);
}

/// Idempotence lifted to whole buffers: re-quantizing an already
/// quantized weight sequence with the same threshold leaves it unchanged.
pub proof fn lemma_compress_idempotent(weights: Seq<u32>, threshold: u32)
    requires
        !is_nan_bits(threshold),
        0 <= ord_bits(threshold) < ord_bits(POS_ONE_BITS),
    ensures
        weights.map_values(|b: u32| quantize_spec(b, threshold)).map_values(
            |b: u32| quantize_spec(b, threshold),
        ) == weights.map_values(|b: u32| quantize_spec(b, threshold)),
{
    let once = weights.map_values(|b: u32| quantize_spec(b, threshold));
    let twice = once.map_values(|b: u32| quantize_spec(b, threshold));
    assert forall|i: int| 0 <= i < twice.len() implies twice[i] == once[i] by {
        lemma_quantize_idempotent(weights[i], threshold);
    }
    assert(twice =~= once);
}

} // verus!
