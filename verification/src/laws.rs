//! What holds of the difference count for all frames and all thresholds.

use crate::frame::{
    difference_count, differing_pixels, frames_fit, lemma_differing_pixels_bounded, pixel_differs,
    pixel_distance,
};
use crate::threshold::{
    distance_exceeds, is_non_negative, magnitude, rounding_boundary, scale, sign_bit,
    significand, threshold_le, ColorThreshold,
};
use vstd::arithmetic::power2::{
    lemma2_to64, lemma_pow2_pos, lemma_pow2_strictly_increases, lemma_pow2_unfold, pow2,
};
use vstd::prelude::*;

verus! {

/// The magnitude of a bit pattern is not negative, and the rounding boundary
/// lies above twice the magnitude by one unit of the pattern's scale.
proof fn lemma_magnitude_and_boundary(bits: u64)
    ensures
        magnitude(bits) >= 0,
        pow2(scale(bits)) > 0,
        rounding_boundary(bits) == 2 * magnitude(bits) + pow2(scale(bits)),
        magnitude(bits) == 0 ==> significand(bits) == 0 && scale(bits) == 0,
{
    let m = significand(bits);
    let unit = pow2(scale(bits)) as int;
    lemma_pow2_pos(scale(bits));
    assert(m * unit >= 0 && (2 * m + 1) * unit == 2 * (m * unit) + unit && (m * unit == 0 ==> m
        == 0)) by (nonlinear_arith)
        requires
            m >= 0,
            unit > 0,
    ;
}

/// Of two patterns without a sign, the one with the smaller magnitude has the
/// smaller rounding boundary.
proof fn lemma_boundary_ordered(low: u64, high: u64)
    requires
        magnitude(low) <= magnitude(high),
    ensures
        rounding_boundary(low) <= rounding_boundary(high),
{
    lemma_magnitude_and_boundary(low);
    lemma_magnitude_and_boundary(high);
    let s1 = scale(low);
    let s2 = scale(high);
    if s1 < s2 {
        lemma_pow2_strictly_increases(s1, s2);
    } else if s1 > s2 {
        let m1 = significand(low);
        let m2 = significand(high);
        let unit = pow2(s2) as int;
        if s1 > s2 + 1 {
            lemma_pow2_strictly_increases(s2 + 1, s1);
        }
        lemma_pow2_unfold(s2 + 1);
        assert(m1 * pow2(s1) > m2 * unit) by (nonlinear_arith)
            requires
                m1 >= 0x10000000000000,
                0 <= m2 < 0x20000000000000,
                pow2(s1) >= 2 * unit,
                unit > 0,
        ;
        assert(false);
    }
}

/// A distance that exceeds a threshold exceeds every lower threshold too.
pub proof fn lemma_exceeds_lower_threshold(delta: int, low: ColorThreshold, high: ColorThreshold)
    requires
        0 <= delta,
        threshold_le(low, high),
        distance_exceeds(delta, high),
    ensures
        distance_exceeds(delta, low),
{
    lemma_magnitude_and_boundary(low.bits);
    lemma_magnitude_and_boundary(high.bits);
    let top = pow2(1075) as int;
    lemma_pow2_pos(1075);
    if sign_bit(high.bits) == 1 && magnitude(high.bits) > 0 {
        // The higher threshold is below zero, and so is the lower.
        assert(sign_bit(low.bits) == 1 && magnitude(low.bits) > 0);
    } else {
        if sign_bit(high.bits) == 0 {
            assert(delta > 0) by (nonlinear_arith)
                requires
                    delta * top > 255 * rounding_boundary(high.bits),
                    rounding_boundary(high.bits) >= 0,
                    top > 0,
            ;
        }
        if sign_bit(low.bits) == 0 {
            if sign_bit(high.bits) == 1 {
                assert(rounding_boundary(low.bits) == pow2(0));
                lemma2_to64();
                lemma_pow2_strictly_increases(8, 1075);
                assert(delta * top > 255) by (nonlinear_arith)
                    requires
                        delta >= 1,
                        top > 256,
                ;
            } else {
                lemma_boundary_ordered(low.bits, high.bits);
                assert(255 * rounding_boundary(low.bits) <= 255 * rounding_boundary(high.bits));
            }
        }
    }
}

/// A threshold that a distance exceeds is exceeded by every larger distance:
/// the largest of the channel gaps decides for a pixel.
pub proof fn lemma_exceeds_grows_with_distance(
    smaller: int,
    larger: int,
    threshold: ColorThreshold,
)
    requires
        smaller <= larger,
        distance_exceeds(smaller, threshold),
    ensures
        distance_exceeds(larger, threshold),
{
    let top = pow2(1075) as int;
    lemma_pow2_pos(1075);
    assert(smaller * top <= larger * top) by (nonlinear_arith)
        requires
            smaller <= larger,
            top > 0,
    ;
}

/// A distance of zero exceeds no threshold that is not negative.
pub proof fn lemma_zero_distance_never_exceeds(threshold: ColorThreshold)
    requires
        is_non_negative(threshold),
    ensures
        !distance_exceeds(0, threshold),
{
    lemma_magnitude_and_boundary(threshold.bits);
    assert(0 * pow2(1075) == 0);
}

/// A frame compared with itself shows no differing pixel, under every
/// threshold that is not negative.
pub proof fn lemma_identical_frames(
    frame: Seq<u8>,
    width: u32,
    height: u32,
    threshold: ColorThreshold,
)
    requires
        is_non_negative(threshold),
    ensures
        difference_count(frame, frame, width, height, threshold) == 0,
{
    lemma_no_pixel_differs_from_itself(frame, (width * height) as nat, threshold);
}

/// None of the first `n` pixels of a frame differs from itself.
proof fn lemma_no_pixel_differs_from_itself(frame: Seq<u8>, n: nat, threshold: ColorThreshold)
    requires
        is_non_negative(threshold),
    ensures
        differing_pixels(frame, frame, n, threshold) == 0,
    decreases n,
{
    if n > 0 {
        lemma_no_pixel_differs_from_itself(frame, (n - 1) as nat, threshold);
        assert(pixel_distance(frame, frame, n - 1) == 0);
        lemma_zero_distance_never_exceeds(threshold);
    }
}

/// Lowering the threshold never lowers the count: under the lower of two
/// thresholds at least as many pixels differ as under the higher.
pub proof fn lemma_threshold_monotone(
    frame1: Seq<u8>,
    frame2: Seq<u8>,
    width: u32,
    height: u32,
    low: ColorThreshold,
    high: ColorThreshold,
)
    requires
        threshold_le(low, high),
    ensures
        difference_count(frame1, frame2, width, height, low) >= difference_count(
            frame1,
            frame2,
            width,
            height,
            high,
        ),
{
    lemma_differing_pixels_monotone(frame1, frame2, (width * height) as nat, low, high);
}

/// Among the first `n` pixels at least as many differ under the lower of two
/// thresholds as under the higher.
proof fn lemma_differing_pixels_monotone(
    frame1: Seq<u8>,
    frame2: Seq<u8>,
    n: nat,
    low: ColorThreshold,
    high: ColorThreshold,
)
    requires
        threshold_le(low, high),
    ensures
        differing_pixels(frame1, frame2, n, low) >= differing_pixels(frame1, frame2, n, high),
    decreases n,
{
    if n > 0 {
        lemma_differing_pixels_monotone(frame1, frame2, (n - 1) as nat, low, high);
        if pixel_differs(frame1, frame2, n - 1, high) {
            lemma_exceeds_lower_threshold(pixel_distance(frame1, frame2, n - 1), low, high);
        }
    }
}

/// The count never exceeds the number of pixels that the dimensions declare.
pub proof fn lemma_difference_count_bounded(
    frame1: Seq<u8>,
    frame2: Seq<u8>,
    width: u32,
    height: u32,
    threshold: ColorThreshold,
)
    ensures
        difference_count(frame1, frame2, width, height, threshold) <= width * height,
{
    lemma_differing_pixels_bounded(frame1, frame2, (width * height) as nat, threshold);
}

/// Frames of a size other than the declared one show no differing pixel,
/// whatever they hold.
pub proof fn lemma_misfit_frames_count_zero(
    frame1: Seq<u8>,
    frame2: Seq<u8>,
    width: u32,
    height: u32,
    threshold: ColorThreshold,
)
    requires
        frame1.len() != width * height * 4 || frame2.len() != width * height * 4,
    ensures
        difference_count(frame1, frame2, width, height, threshold) == 0,
{
}

/// Whether two frames of one length agree in every byte but the alpha bytes.
pub open spec fn same_but_alpha(frame: Seq<u8>, other: Seq<u8>) -> bool {
    &&& frame.len() == other.len()
    &&& forall|k: int| 0 <= k < frame.len() && k % 4 != 3 ==> #[trigger] frame[k] == other[k]
}

/// The alpha bytes play no part: frames that differ from the given ones in
/// alpha bytes alone give the same count.
pub proof fn lemma_alpha_irrelevant(
    frame1: Seq<u8>,
    frame2: Seq<u8>,
    other1: Seq<u8>,
    other2: Seq<u8>,
    width: u32,
    height: u32,
    threshold: ColorThreshold,
)
    requires
        same_but_alpha(frame1, other1),
        same_but_alpha(frame2, other2),
    ensures
        difference_count(other1, other2, width, height, threshold) == difference_count(
            frame1,
            frame2,
            width,
            height,
            threshold,
        ),
{
    if frames_fit(frame1, frame2, width, height) {
        lemma_differing_pixels_ignore_alpha(
            frame1,
            frame2,
            other1,
            other2,
            (width * height) as nat,
            threshold,
        );
    }
}

/// Among the first `n` pixels, which all lie within the frames, as many
/// differ after a change of alpha bytes as before it.
proof fn lemma_differing_pixels_ignore_alpha(
    frame1: Seq<u8>,
    frame2: Seq<u8>,
    other1: Seq<u8>,
    other2: Seq<u8>,
    n: nat,
    threshold: ColorThreshold,
)
    requires
        same_but_alpha(frame1, other1),
        same_but_alpha(frame2, other2),
        4 * n <= frame1.len(),
        4 * n <= frame2.len(),
    ensures
        differing_pixels(other1, other2, n, threshold) == differing_pixels(
            frame1,
            frame2,
            n,
            threshold,
        ),
    decreases n,
{
    if n > 0 {
        lemma_differing_pixels_ignore_alpha(
            frame1,
            frame2,
            other1,
            other2,
            (n - 1) as nat,
            threshold,
        );
        let base = 4 * (n - 1);
        assert(frame1[base] == other1[base]);
        assert(frame1[base + 1] == other1[base + 1]);
        assert(frame1[base + 2] == other1[base + 2]);
        assert(frame2[base] == other2[base]);
        assert(frame2[base + 1] == other2[base + 1]);
        assert(frame2[base + 2] == other2[base + 2]);
    }
}

} // verus!
