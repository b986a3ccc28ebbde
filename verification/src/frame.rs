//! Frames of RGBA pixels and the count of the pixels in which two of them differ.

use crate::threshold::{distance_exceeds, ColorThreshold};
use vstd::prelude::*;

verus! {

/// The number of bytes that a pixel takes: red, green, blue and alpha.
pub const BYTES_PER_PIXEL: u128 = 4;

/// The gap between two values of one channel.
pub open spec fn channel_gap(a: u8, b: u8) -> int {
    if a >= b {
        a - b
    } else {
        b - a
    }
}

/// The distance between two colours, in 255ths: the largest of the gaps
/// between their red, their green and their blue channels.
pub open spec fn color_distance(r1: u8, g1: u8, b1: u8, r2: u8, g2: u8, b2: u8) -> int {
    let dr = channel_gap(r1, r2);
    let dg = channel_gap(g1, g2);
    let db = channel_gap(b1, b2);
    if dr >= dg && dr >= db {
        dr
    } else if dg >= db {
        dg
    } else {
        db
    }
}

/// The colour distance between pixel `i` of one frame and pixel `i` of
/// another. The fourth byte of a pixel, its alpha, plays no part.
pub open spec fn pixel_distance(frame1: Seq<u8>, frame2: Seq<u8>, i: int) -> int {
    color_distance(
        frame1[4 * i],
        frame1[4 * i + 1],
        frame1[4 * i + 2],
        frame2[4 * i],
        frame2[4 * i + 1],
        frame2[4 * i + 2],
    )
}

/// Whether pixel `i` counts as different under the threshold.
pub open spec fn pixel_differs(
    frame1: Seq<u8>,
    frame2: Seq<u8>,
    i: int,
    threshold: ColorThreshold,
) -> bool {
    distance_exceeds(pixel_distance(frame1, frame2, i), threshold)
}

/// How many of the first `n` pixels differ.
pub open spec fn differing_pixels(
    frame1: Seq<u8>,
    frame2: Seq<u8>,
    n: nat,
    threshold: ColorThreshold,
) -> nat
    decreases n,
{
    if n == 0 {
        0
    } else {
        differing_pixels(frame1, frame2, (n - 1) as nat, threshold) + if pixel_differs(
            frame1,
            frame2,
            n - 1,
            threshold,
        ) {
            1nat
        } else {
            0nat
        }
    }
}

/// Whether both frames hold exactly `width * height` pixels.
pub open spec fn frames_fit(frame1: Seq<u8>, frame2: Seq<u8>, width: u32, height: u32) -> bool {
    frame1.len() == width * height * 4 && frame2.len() == width * height * 4
}

/// Whether the differing pixels of two frames can be counted in 32 bits:
/// frames that have the declared size hold no more than `u32::MAX` pixels.
/// On a machine whose addresses have 32 bits this holds of all frames.
pub open spec fn countable(frame1: Seq<u8>, frame2: Seq<u8>, width: u32, height: u32) -> bool {
    frames_fit(frame1, frame2, width, height) ==> width * height <= u32::MAX
}

/// The number of differing pixels of two frames: that of all their pixels
/// where both frames have the declared size, and 0 where one has not.
pub open spec fn difference_count(
    frame1: Seq<u8>,
    frame2: Seq<u8>,
    width: u32,
    height: u32,
    threshold: ColorThreshold,
) -> nat {
    if frames_fit(frame1, frame2, width, height) {
        differing_pixels(frame1, frame2, (width * height) as nat, threshold)
    } else {
        0
    }
}

/// Among the first `n` pixels no more than `n` differ.
pub proof fn lemma_differing_pixels_bounded(
    frame1: Seq<u8>,
    frame2: Seq<u8>,
    n: nat,
    threshold: ColorThreshold,
)
    ensures
        differing_pixels(frame1, frame2, n, threshold) <= n,
    decreases n,
{
    if n > 0 {
        lemma_differing_pixels_bounded(frame1, frame2, (n - 1) as nat, threshold);
    }
}

/// The ratio of differing pixels to all pixels of a frame, as a fraction.
#[derive(Clone, Copy, Debug)]
pub struct DifferenceRatio {
    /// The number of pixels that differ.
    pub differing: u32,
    /// The number of pixels of a frame.
    pub total: u64,
}

impl DifferenceRatio {
    /// No more pixels differ than the frame has.
    pub open spec fn wf(self) -> bool {
        self.differing <= self.total
    }

    /// The ratio in hundredths of a percent, rounded down; 0 for a frame
    /// without pixels.
    pub open spec fn spec_basis_points(self) -> int {
        if self.total == 0 {
            0
        } else {
            (self.differing * 10000) / (self.total as int)
        }
    }

    /// The ratio in hundredths of a percent, rounded down: a number from 0
    /// to 10000, and 0 for a frame without pixels.
    pub fn basis_points(&self) -> (points: u32)
        requires
            self.wf(),
        ensures
            points == self.spec_basis_points(),
            points <= 10000,
    {
        if self.total == 0 {
            return 0;
        }
        let scaled: u64 = self.differing as u64 * 10000;
        let points: u64 = scaled / self.total;
        proof {
            let d = self.differing as int;
            let t = self.total as int;
            assert((d * 10000) / t <= 10000) by (nonlinear_arith)
                requires
                    0 <= d <= t,
                    t > 0,
            ;
        }
        points as u32
    }
}

/// The gap between two values of one channel.
fn channel_delta(a: u8, b: u8) -> (gap: u8)
    ensures
        gap == channel_gap(a, b),
{
    if a >= b {
        a - b
    } else {
        b - a
    }
}

/// The distance between two colours in 255ths: the largest gap between two
/// channels of the same name.
pub fn color_delta(r1: u8, g1: u8, b1: u8, r2: u8, g2: u8, b2: u8) -> (delta: u8)
    ensures
        delta == color_distance(r1, g1, b1, r2, g2, b2),
{
    let dr: u8 = channel_delta(r1, r2);
    let dg: u8 = channel_delta(g1, g2);
    let db: u8 = channel_delta(b1, b2);
    if dr >= dg && dr >= db {
        dr
    } else if dg >= db {
        dg
    } else {
        db
    }
}

/// The number of pixels of a frame of the given width and height.
fn pixel_count(width: u32, height: u32) -> (total: u64)
    ensures
        total == width * height,
{
    assert(width * height <= 0xFFFF_FFFF * 0xFFFF_FFFF) by (nonlinear_arith)
        requires
            0 <= width <= 0xFFFF_FFFF,
            0 <= height <= 0xFFFF_FFFF,
    ;
    width as u64 * height as u64
}

/// Whether the two frames meet what `detect_difference` and
/// `detect_difference_ratio` ask of them.
pub fn is_countable(frame1: &[u8], frame2: &[u8], width: u32, height: u32) -> (ok: bool)
    ensures
        ok == countable(frame1@, frame2@, width, height),
{
    let total: u64 = pixel_count(width, height);
    let expected_len: u128 = total as u128 * BYTES_PER_PIXEL;
    frame1.len() as u128 != expected_len || frame2.len() as u128 != expected_len || total
        <= 0xFFFF_FFFF
}

/// Counts the pixels of two frames of `width * height` pixels whose colours
/// are further apart than the threshold allows. Where a frame does not hold
/// `width * height * 4` bytes the count is 0.
pub fn detect_difference(
    frame1: &[u8],
    frame2: &[u8],
    width: u32,
    height: u32,
    color_threshold: ColorThreshold,
) -> (count: u32)
    requires
        countable(frame1@, frame2@, width, height),
    ensures
        count == difference_count(frame1@, frame2@, width, height, color_threshold),
        count <= width * height,
        !frames_fit(frame1@, frame2@, width, height) ==> count == 0,
{
    let total: u64 = pixel_count(width, height);
    let expected_len: u128 = total as u128 * BYTES_PER_PIXEL;
    if frame1.len() as u128 != expected_len || frame2.len() as u128 != expected_len {
        return 0;
    }
    let total_pixels: usize = total as usize;
    let cutoff: u16 = color_threshold.cutoff();
    let mut diff_count: u32 = 0;
    let mut i: usize = 0;
    while i < total_pixels
        invariant
            i <= total_pixels,
            total_pixels == width * height,
            total_pixels <= u32::MAX,
            total_pixels * 4 <= usize::MAX,
            frame1@.len() == total_pixels * 4,
            frame2@.len() == total_pixels * 4,
            cutoff <= 256,
            forall|delta: int|
                0 <= delta <= 255 ==> (#[trigger] distance_exceeds(delta, color_threshold) <==> delta
                    >= cutoff),
            diff_count == differing_pixels(frame1@, frame2@, i as nat, color_threshold),
            diff_count <= i,
        decreases total_pixels - i,
    {
        let idx: usize = i * 4;
        let delta: u8 = color_delta(
            frame1[idx],
            frame1[idx + 1],
            frame1[idx + 2],
            frame2[idx],
            frame2[idx + 1],
            frame2[idx + 2],
        );
        if delta as u16 >= cutoff {
            diff_count += 1;
        }
        i += 1;
    }
    diff_count
}

/// Why two frames cannot be compared.
#[derive(Clone, Copy, Debug, PartialEq, Eq)]
pub enum FrameError {
    /// A frame does not hold `width * height * 4` bytes.
    LengthMismatch,
    /// The frames hold more pixels than a count of 32 bits can number.
    TooManyPixels,
}

/// Counts the differing pixels as `detect_difference` does, and tells frames
/// that cannot be compared from frames in which no pixel differs.
pub fn try_detect_difference(
    frame1: &[u8],
    frame2: &[u8],
    width: u32,
    height: u32,
    color_threshold: ColorThreshold,
) -> (outcome: Result<u32, FrameError>)
    ensures
        outcome == Err::<u32, FrameError>(FrameError::LengthMismatch) <==> !frames_fit(
            frame1@,
            frame2@,
            width,
            height,
        ),
        outcome == Err::<u32, FrameError>(FrameError::TooManyPixels) <==> frames_fit(
            frame1@,
            frame2@,
            width,
            height,
        ) && width * height > u32::MAX,
        outcome is Ok <==> frames_fit(frame1@, frame2@, width, height) && width * height
            <= u32::MAX,
        outcome is Ok ==> outcome->Ok_0 == differing_pixels(
            frame1@,
            frame2@,
            (width * height) as nat,
            color_threshold,
        ),
{
    let total: u64 = pixel_count(width, height);
    let expected_len: u128 = total as u128 * BYTES_PER_PIXEL;
    if frame1.len() as u128 != expected_len || frame2.len() as u128 != expected_len {
        return Err(FrameError::LengthMismatch);
    }
    if total > 0xFFFF_FFFF {
        return Err(FrameError::TooManyPixels);
    }
    Ok(detect_difference(frame1, frame2, width, height, color_threshold))
}

/// The differing pixels of two frames as a ratio of all pixels. For a frame
/// without pixels the ratio is 0 of 0, and no pixel data is read.
pub fn detect_difference_ratio(
    frame1: &[u8],
    frame2: &[u8],
    width: u32,
    height: u32,
    color_threshold: ColorThreshold,
) -> (ratio: DifferenceRatio)
    requires
        countable(frame1@, frame2@, width, height),
    ensures
        ratio.total == width * height,
        ratio.differing == difference_count(frame1@, frame2@, width, height, color_threshold),
        ratio.wf(),
        width * height == 0 ==> ratio.differing == 0 && ratio.spec_basis_points() == 0,
{
    let total: u64 = pixel_count(width, height);
    if total == 0 {
        return DifferenceRatio { differing: 0, total: 0 };
    }
    let differing: u32 = detect_difference(frame1, frame2, width, height, color_threshold);
    DifferenceRatio { differing, total }
}

} // verus!
