//! Counts the pixels that differ between two RGBA frames of equal size.
//!
//! A pixel differs when the largest gap between its red, green or blue
//! channels, taken as a fraction of 255, is strictly greater than a colour
//! threshold. The threshold is a binary64 number that the library holds by
//! its bit pattern, so that every decision is made in integer arithmetic.

pub mod frame;
pub mod laws;
pub mod threshold;

pub use frame::{
    color_delta, detect_difference, detect_difference_ratio, is_countable, try_detect_difference,
    DifferenceRatio, FrameError,
};
pub use threshold::ColorThreshold;
