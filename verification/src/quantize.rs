use vstd::prelude::*;

verus! {

use vstd::arithmetic::div_mod::{
    lemma_div_is_ordered,
    lemma_div_pos_is_pos,
    lemma_fundamental_div_mod_converse,
    lemma_div_multiples_vanish,
    lemma_mod_multiples_basic,
};
use vstd::arithmetic::mul::lemma_mul_inequality;

/// Coarse bucket of a sample for a given level count: `value * levels / 256`.
pub open spec fn bucket(value: u8, levels: int) -> int {
    value * levels / 256
}

/// Thresholded quantization before the final byte cast: a sample keeps its
/// value when fewer than two levels exist; otherwise its bucket's upper
/// representable level is taken when the sample exceeds the threshold, and
/// the lower one (zero below the first level) when it does not.
pub open spec fn quantize_int(value: u8, threshold: u8, levels: int) -> int {
    if levels <= 1 {
        value as int
    } else {
        let b = bucket(value, levels);
        if value > threshold {
            b * 255 / (levels - 1)
        } else if b == 0 {
            0
        } else {
            (b - 1) * 255 / (levels - 1)
        }
    }
}

/// The quantizer's exact result as a byte.
pub open spec fn quantize_spec(value: u8, threshold: u8, levels: int) -> u8 {
    quantize_int(value, threshold, levels) as u8
}

/// A sample's bucket lies below the level count.
pub proof fn lemma_bucket_bounds(value: u8, levels: int)
    requires
        2 <= levels,
    ensures
        0 <= bucket(value, levels) <= levels - 1,
{
    lemma_div_pos_is_pos(value * levels, 256);
    assert(value * levels <= 255 * levels) by (nonlinear_arith)
        requires
            0 <= value <= 255,
            2 <= levels,
    ;
    lemma_div_is_ordered(value * levels, 255 * levels, 256);
    assert(255 * levels / 256 <= levels - 1) by (nonlinear_arith)
        requires
            2 <= levels,
    ;
}

/// Representable levels fit in a byte, so the final cast changes nothing.
pub proof fn lemma_quantize_range(value: u8, threshold: u8, levels: int)
    ensures
        0 <= quantize_int(value, threshold, levels) <= 255,
        quantize_spec(value, threshold, levels) == quantize_int(value, threshold, levels),
{
    if levels >= 2 {
        lemma_bucket_bounds(value, levels);
        let b = bucket(value, levels);
        assert(0 <= b * 255 / (levels - 1) <= 255) by (nonlinear_arith)
            requires
                0 <= b <= levels - 1,
                2 <= levels,
        ;
        if b >= 1 {
            assert(0 <= (b - 1) * 255 / (levels - 1) <= 255) by (nonlinear_arith)
                requires
                    1 <= b <= levels - 1,
                    2 <= levels,
            ;
        }
    }
}

/// The quantizer is monotonic non-decreasing in the sample for a fixed
/// threshold and level count.
pub proof fn lemma_quantize_monotonic(v1: u8, v2: u8, threshold: u8, levels: int)
    requires
        v1 <= v2,
    ensures
        quantize_spec(v1, threshold, levels) <= quantize_spec(v2, threshold, levels),
{
    lemma_quantize_range(v1, threshold, levels);
    lemma_quantize_range(v2, threshold, levels);
    if levels >= 2 {
        lemma_bucket_bounds(v1, levels);
        lemma_bucket_bounds(v2, levels);
        let b1 = bucket(v1, levels);
        let b2 = bucket(v2, levels);
        lemma_mul_inequality(v1 as int, v2 as int, levels);
        lemma_div_is_ordered(v1 * levels, v2 * levels, 256);
        assert(b1 <= b2);
        // The lower level of a bucket never exceeds its upper level, and both
        // grow with the bucket.
        lemma_mul_inequality(b1 - 1, b1, 255);
        lemma_mul_inequality(b1, b2, 255);
        lemma_mul_inequality(b2 - 1, b2, 255);
        if b1 >= 1 {
            lemma_mul_inequality(b1 - 1, b2 - 1, 255);
        }
        lemma_div_is_ordered((b1 - 1) * 255, b1 * 255, levels - 1);
        lemma_div_is_ordered(b1 * 255, b2 * 255, levels - 1);
        lemma_div_is_ordered((b2 - 1) * 255, b2 * 255, levels - 1);
        if b1 >= 1 {
            lemma_div_is_ordered((b1 - 1) * 255, (b2 - 1) * 255, levels - 1);
        }
        lemma_div_pos_is_pos(b1 * 255, levels - 1);
        lemma_div_pos_is_pos(b2 * 255, levels - 1);
        if b2 >= 1 {
            lemma_div_pos_is_pos((b2 - 1) * 255, levels - 1);
        }
    }
}

/// In the library's two modes the level count minus one divides 255, and a
/// representable level re-buckets to its own index.
proof fn lemma_level_rebuckets(k: int, levels: int)
    requires
        levels == 16 || levels == 6,
        0 <= k <= levels - 1,
    ensures
        bucket((k * 255 / (levels - 1)) as u8, levels) == k,
        k * 255 / (levels - 1) == k * (255int / (levels - 1)),
{
    if levels == 16 {
        assert(k * 255 == 15 * (17 * k));
        lemma_div_multiples_vanish(17 * k, 15);
        assert(k * 255 / 15 == 17 * k);
        assert(0 <= 17 * k <= 255);
        assert((17 * k) * 16 == k * 256 + 16 * k);
        lemma_fundamental_div_mod_converse((17 * k) * 16, 256, k, 16 * k);
        assert(bucket((k * 255 / 15) as u8, 16) == k);
        assert(k * (255int / 15) == 17 * k);
    } else {
        assert(k * 255 == 5 * (51 * k));
        lemma_div_multiples_vanish(51 * k, 5);
        assert(k * 255 / 5 == 51 * k);
        assert(0 <= 51 * k <= 255);
        assert((51 * k) * 6 == k * 256 + 50 * k);
        lemma_fundamental_div_mod_converse((51 * k) * 6, 256, k, 50 * k);
        assert(bucket((k * 255 / 5) as u8, 6) == k);
        assert(k * (255int / 5) == 51 * k);
    }
}

/// Quantizing a quantizer output changes nothing, provided that output either
/// exceeds the threshold or is zero.  (An output that is positive yet at or
/// below the threshold falls to the next lower level instead.)
pub proof fn lemma_quantize_fixed_point(value: u8, threshold: u8, levels: int)
    requires
        levels == 16 || levels == 6,
        quantize_spec(value, threshold, levels) == 0 || quantize_spec(value, threshold, levels)
            > threshold,
    ensures
        quantize_spec(quantize_spec(value, threshold, levels), threshold, levels) == quantize_spec(
            value,
            threshold,
            levels,
        ),
{
    lemma_quantize_range(value, threshold, levels);
    let q = quantize_spec(value, threshold, levels);
    lemma_quantize_range(q, threshold, levels);
    if q == 0 {
        assert(bucket(0u8, levels) == 0);
    } else {
        lemma_bucket_bounds(value, levels);
        let b = bucket(value, levels);
        let k: int = if value > threshold {
            b
        } else {
            b - 1
        };
        lemma_level_rebuckets(k, levels);
        assert(q == k * 255 / (levels - 1));
        assert(bucket(q, levels) == k);
        assert(q > threshold);
    }
}

/// Every output of the library's two modes lies on a representable level: a
/// multiple of `255 / (levels - 1)`.
pub proof fn lemma_quantize_on_level(value: u8, threshold: u8, levels: int)
    requires
        levels == 16 || levels == 6,
    ensures
        quantize_spec(value, threshold, levels) as int % (255int / (levels - 1)) == 0,
{
    lemma_quantize_range(value, threshold, levels);
    lemma_bucket_bounds(value, levels);
    let b = bucket(value, levels);
    let q = quantize_spec(value, threshold, levels);
    if q == 0 {
        assert(0int % (255int / (levels - 1)) == 0);
    } else {
        let k: int = if value > threshold {
            b
        } else {
            b - 1
        };
        lemma_level_rebuckets(k, levels);
        lemma_mod_multiples_basic(k, 255int / (levels - 1));
    }
}

/// Maps a sample to the representable level that its coarse bucket selects:
/// the bucket's upper level when the sample exceeds the threshold, else the
/// lower one.
pub fn apply_threshold(value: u8, threshold: u8, levels: usize) -> (r: u8)
    requires
        levels <= usize::MAX / 256,
    ensures
        r == quantize_spec(value, threshold, levels as int),
{
    if levels <= 1 {
        return value;
    }
    proof {
        lemma_bucket_bounds(value, levels as int);
        lemma_quantize_range(value, threshold, levels as int);
        lemma_mul_inequality(value as int, 255, levels as int);
        assert(255 * levels <= 256 * (usize::MAX / 256)) by (nonlinear_arith)
            requires
                1 <= levels <= usize::MAX / 256,
        ;
        assert(256 * (usize::MAX / 256) <= usize::MAX) by (nonlinear_arith)
            requires
                usize::MAX >= 256,
        ;
        assert(levels * 255 <= 255 * levels) by (nonlinear_arith);
    }
    let b: usize = value as usize * levels / 256;
    proof {
        lemma_mul_inequality(b as int, levels as int, 255);
        assert(b * 255 <= levels * 255);
    }
    if value > threshold {
        (b * 255 / (levels - 1)) as u8
    } else if b == 0 {
        0
    } else {
        ((b - 1) * 255 / (levels - 1)) as u8
    }
}

} // verus!
