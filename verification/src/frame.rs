//! Reduction of a captured frame to a single perceived-lightness value.
//!
//! The frame arrives as a tightly packed RGB byte buffer.  Each pixel
//! contributes a luminance-weighted average of its channels (weights in
//! ten-thousandths), and the mean over all pixels is scaled to a percentage.

use vstd::arithmetic::div_mod::lemma_div_pos_is_pos;
use vstd::arithmetic::div_mod::lemma_multiply_divide_le;
use vstd::arithmetic::mul::{lemma_mul_inequality, lemma_mul_nonnegative, lemma_mul_upper_bound};
use vstd::prelude::*;

verus! {

/// Weighted luminance of pixel `i`, in ten-thousandths of a channel unit.
pub open spec fn spec_pixel_luminance(rgb: Seq<u8>, i: int) -> int {
    2126 * rgb[3 * i] + 7152 * rgb[3 * i + 1] + 722 * rgb[3 * i + 2]
}

/// Total luminance of the first `n` pixels.
pub open spec fn spec_luminance_sum(rgb: Seq<u8>, n: int) -> int
    decreases n,
{
    if n <= 0 {
        0
    } else {
        spec_luminance_sum(rgb, n - 1) + spec_pixel_luminance(rgb, n - 1)
    }
}

/// The perceived lightness of a frame, 0 to 100.
pub open spec fn spec_perceived_lightness_percent(
    rgb: Seq<u8>,
    inverted: bool,
    pixels: int,
) -> int {
    let base = spec_luminance_sum(rgb, pixels) * 100 / (pixels * 2_550_000);
    if inverted {
        100 - base
    } else {
        base
    }
}

/// Reduce a packed RGB buffer of `pixels` pixels to its perceived lightness
/// as a percentage; `inverted` selects the opposite polarity.
#[verifier::loop_isolation(false)]
pub fn compute_perceived_lightness_percent(rgbs: &Vec<u8>, inverted: bool, pixels: usize) -> (r:
    u8)
    requires
        pixels >= 1,
        rgbs@.len() >= 3 * pixels,
    ensures
        r as int == spec_perceived_lightness_percent(rgbs@, inverted, pixels as int),
        r <= 100,
{
    let n_bytes: usize = rgbs.len();
    proof {
        assert(3 * (pixels as int) <= n_bytes as int);
    }
    let mut sum: u128 = 0;
    let mut i: usize = 0;
    while i < pixels
        invariant
            0 <= i <= pixels,
            sum as int == spec_luminance_sum(rgbs@, i as int),
            sum as int <= (i as int) * 2_550_000,
        decreases pixels - i,
    {
        proof {
            assert(3 * (i as int) + 2 < 3 * (pixels as int) && 0 <= 3 * (i as int))
                by (nonlinear_arith)
                requires
                    0 <= i as int,
                    (i as int) < (pixels as int),
            ;
        }
        let red = rgbs[3 * i];
        let green = rgbs[3 * i + 1];
        let blue = rgbs[3 * i + 2];
        proof {
            lemma_mul_upper_bound(2126, 2126, red as int, 255);
            lemma_mul_upper_bound(7152, 7152, green as int, 255);
            lemma_mul_upper_bound(722, 722, blue as int, 255);
            lemma_mul_nonnegative(2126, red as int);
            lemma_mul_nonnegative(7152, green as int);
            lemma_mul_nonnegative(722, blue as int);
            assert(((i + 1) as int) * 2_550_000 == (i as int) * 2_550_000 + 2_550_000)
                by (nonlinear_arith);
        }
        let pixel: u128 = 2126 * (red as u128) + 7152 * (green as u128) + 722 * (blue as u128);
        sum = sum + pixel;
        i = i + 1;
    }
    proof {
        lemma_mul_inequality(i as int, u64::MAX as int, 2_550_000);
        lemma_mul_upper_bound(sum as int, (u64::MAX as int) * 2_550_000, 100, 100);
        lemma_mul_nonnegative(sum as int, 100);
        lemma_mul_inequality(1, pixels as int, 2_550_000);
        lemma_mul_inequality(pixels as int, u64::MAX as int, 2_550_000);
    }
    let total: u128 = sum * 100;
    let den: u128 = (pixels as u128) * 2_550_000;
    proof {
        lemma_mul_inequality(sum as int, den as int, 100);
        lemma_multiply_divide_le(total as int, den as int, 100);
        lemma_div_pos_is_pos(total as int, den as int);
    }
    let base: u8 = (total / den) as u8;
    if inverted {
        100 - base
    } else {
        base
    }
}

} // verus!
