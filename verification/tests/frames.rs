use diff_detector::{
    color_delta, detect_difference, detect_difference_ratio, is_countable,
    try_detect_difference, ColorThreshold, DifferenceRatio, FrameError,
};

fn threshold(value: f64) -> ColorThreshold {
    ColorThreshold::from_bits(value.to_bits())
}

fn percent(ratio: DifferenceRatio) -> f64 {
    if ratio.total == 0 {
        0.0
    } else {
        (ratio.differing as f64 / ratio.total as f64) * 100.0
    }
}

/// The count as floating-point arithmetic gives it.
fn count_with_floats(frame1: &[u8], frame2: &[u8], pixels: usize, limit: f64) -> u32 {
    let mut count = 0;
    for i in 0..pixels {
        let mut distance = 0.0f64;
        for c in 0..3 {
            let gap = (frame1[4 * i + c] as i32 - frame2[4 * i + c] as i32).abs() as f64 / 255.0;
            distance = distance.max(gap);
        }
        if distance > limit {
            count += 1;
        }
    }
    count
}

fn sample_frame(pixels: usize, seed: u64) -> Vec<u8> {
    let mut state = seed;
    let mut frame = Vec::with_capacity(pixels * 4);
    for _ in 0..pixels * 4 {
        state = state.wrapping_mul(6364136223846793005).wrapping_add(1442695040888963407);
        frame.push((state >> 56) as u8);
    }
    frame
}

#[test]
fn test_identical_frames() {
    let frame: Vec<u8> = vec![255, 0, 0, 255, 0, 255, 0, 255];
    let diff = detect_difference(&frame, &frame, 2, 1, threshold(0.1));
    assert_eq!(diff, 0);
}

#[test]
fn test_different_frames() {
    let frame1: Vec<u8> = vec![255, 0, 0, 255, 0, 255, 0, 255];
    let frame2: Vec<u8> = vec![0, 0, 255, 255, 255, 255, 0, 255];
    let diff = detect_difference(&frame1, &frame2, 2, 1, threshold(0.1));
    assert_eq!(diff, 2);
}

#[test]
fn test_difference_ratio() {
    let frame1: Vec<u8> = vec![255, 0, 0, 255, 0, 0, 0, 255];
    let frame2: Vec<u8> = vec![255, 0, 0, 255, 255, 255, 255, 255];
    let ratio = percent(detect_difference_ratio(&frame1, &frame2, 2, 1, threshold(0.1)));
    assert!((ratio - 50.0).abs() < 0.01);
}

#[test]
fn ratio_is_a_fraction_of_all_pixels() {
    let frame1: Vec<u8> = vec![255, 0, 0, 255, 0, 0, 0, 255];
    let frame2: Vec<u8> = vec![255, 0, 0, 255, 255, 255, 255, 255];
    let ratio = detect_difference_ratio(&frame1, &frame2, 2, 1, threshold(0.1));
    assert_eq!(ratio.differing, 1);
    assert_eq!(ratio.total, 2);
    assert_eq!(ratio.basis_points(), 5000);
}

#[test]
fn basis_points_round_down() {
    assert_eq!(DifferenceRatio { differing: 1, total: 3 }.basis_points(), 3333);
    assert_eq!(DifferenceRatio { differing: 2, total: 3 }.basis_points(), 6666);
    assert_eq!(DifferenceRatio { differing: 3, total: 3 }.basis_points(), 10000);
    assert_eq!(DifferenceRatio { differing: 0, total: 0 }.basis_points(), 0);
    assert_eq!(
        DifferenceRatio { differing: u32::MAX, total: u32::MAX as u64 }.basis_points(),
        10000
    );
}

#[test]
fn truncated_frame_counts_nothing() {
    let frame1: Vec<u8> = vec![255, 0, 0, 255, 0, 0, 0];
    let frame2: Vec<u8> = vec![255, 0, 0, 255, 255, 255, 255, 255];
    assert_eq!(detect_difference(&frame1, &frame2, 2, 1, threshold(0.1)), 0);
    assert_eq!(detect_difference(&frame2, &frame1, 2, 1, threshold(0.1)), 0);
    assert_eq!(detect_difference(&frame2, &frame2, 3, 1, threshold(-1.0)), 0);
    assert_eq!(detect_difference(&frame2, &frame2, 1, 1, threshold(-1.0)), 0);
    let ratio = detect_difference_ratio(&frame1, &frame2, 2, 1, threshold(0.1));
    assert_eq!(ratio.differing, 0);
    assert_eq!(ratio.total, 2);
    assert_eq!(percent(ratio), 0.0);
}

#[test]
fn frame_without_pixels_has_ratio_zero() {
    let frame1: Vec<u8> = vec![255, 0, 0, 255];
    let empty: Vec<u8> = Vec::new();
    let ratio = detect_difference_ratio(&frame1, &frame1, 0, 5, threshold(0.1));
    assert_eq!(ratio.differing, 0);
    assert_eq!(ratio.total, 0);
    assert_eq!(ratio.basis_points(), 0);
    assert_eq!(percent(ratio), 0.0);
    let ratio = detect_difference_ratio(&empty, &empty, 5, 0, threshold(-1.0));
    assert_eq!(percent(ratio), 0.0);
    assert_eq!(detect_difference(&empty, &empty, 0, 5, threshold(-1.0)), 0);
}

#[test]
fn dimensions_too_large_for_the_frames_count_nothing() {
    let frame: Vec<u8> = vec![1, 2, 3, 4];
    assert_eq!(detect_difference(&frame, &frame, u32::MAX, u32::MAX, threshold(-1.0)), 0);
    assert_eq!(detect_difference(&frame, &frame, 65536, 65536, threshold(-1.0)), 0);
    let empty: Vec<u8> = Vec::new();
    assert_eq!(detect_difference(&empty, &empty, 65536, 65536, threshold(-1.0)), 0);
    let ratio = detect_difference_ratio(&frame, &frame, u32::MAX, u32::MAX, threshold(-1.0));
    assert_eq!(ratio.differing, 0);
    assert_eq!(ratio.total, (u32::MAX as u64) * (u32::MAX as u64));
}

#[test]
fn small_frames_are_countable() {
    let frame: Vec<u8> = vec![1, 2, 3, 4];
    let empty: Vec<u8> = Vec::new();
    assert!(is_countable(&frame, &frame, 1, 1));
    assert!(is_countable(&frame, &empty, 1, 1));
    assert!(is_countable(&frame, &frame, u32::MAX, u32::MAX));
    assert!(is_countable(&empty, &empty, 65536, 65536));
    assert!(is_countable(&empty, &empty, 0, u32::MAX));
}

#[test]
fn strict_variant_names_the_mismatch() {
    let frame1: Vec<u8> = vec![255, 0, 0, 255, 0, 0, 0];
    let frame2: Vec<u8> = vec![255, 0, 0, 255, 255, 255, 255, 255];
    assert_eq!(
        try_detect_difference(&frame1, &frame2, 2, 1, threshold(0.1)),
        Err(FrameError::LengthMismatch)
    );
    assert_eq!(
        try_detect_difference(&frame2, &frame2, u32::MAX, 2, threshold(0.1)),
        Err(FrameError::LengthMismatch)
    );
    let black: Vec<u8> = vec![0; 8];
    assert_eq!(try_detect_difference(&black, &frame2, 2, 1, threshold(0.1)), Ok(2));
    assert_eq!(try_detect_difference(&frame2, &frame2, 1, 2, threshold(0.1)), Ok(0));
}

#[test]
fn color_delta_is_the_largest_channel_gap() {
    assert_eq!(color_delta(0, 0, 0, 0, 0, 0), 0);
    assert_eq!(color_delta(255, 0, 0, 0, 0, 255), 255);
    assert_eq!(color_delta(10, 20, 30, 13, 18, 30), 3);
    assert_eq!(color_delta(10, 20, 30, 11, 90, 28), 70);
    assert_eq!(color_delta(10, 20, 30, 11, 21, 5), 25);
    assert_eq!(color_delta(200, 0, 255, 100, 255, 0), 255);
}

#[test]
fn pixel_at_the_threshold_does_not_differ() {
    let frame1: Vec<u8> = vec![0, 0, 0, 255];
    let frame2: Vec<u8> = vec![51, 0, 0, 255];
    let at = 51.0f64 / 255.0;
    assert_eq!(detect_difference(&frame1, &frame2, 1, 1, threshold(at)), 0);
    assert_eq!(detect_difference(&frame1, &frame2, 1, 1, threshold(0.2)), 0);
    let below = f64::from_bits(at.to_bits() - 1);
    assert_eq!(detect_difference(&frame1, &frame2, 1, 1, threshold(below)), 1);
    let white: Vec<u8> = vec![255, 255, 255, 0];
    assert_eq!(detect_difference(&frame1, &white, 1, 1, threshold(1.0)), 0);
    assert_eq!(detect_difference(&frame1, &white, 1, 1, threshold(0.9999999999999999)), 1);
}

#[test]
fn identical_frames_never_differ() {
    let frame = sample_frame(64, 7);
    for value in [0.0, -0.0, 1e-300, 0.001, 0.1, 0.5, 1.0, 2.0, f64::INFINITY, f64::MIN_POSITIVE] {
        assert_eq!(detect_difference(&frame, &frame, 8, 8, threshold(value)), 0);
        assert_eq!(detect_difference(&frame, &frame, 64, 1, threshold(value)), 0);
    }
}

#[test]
fn negative_threshold_counts_every_pixel() {
    let frame = sample_frame(12, 3);
    assert_eq!(detect_difference(&frame, &frame, 4, 3, threshold(-0.5)), 12);
    assert_eq!(detect_difference(&frame, &frame, 4, 3, threshold(f64::NEG_INFINITY)), 12);
    assert_eq!(detect_difference(&frame, &frame, 4, 3, threshold(-5e-324)), 12);
    let ratio = detect_difference_ratio(&frame, &frame, 4, 3, threshold(-0.5));
    assert_eq!(ratio.basis_points(), 10000);
    assert_eq!(percent(ratio), 100.0);
}

#[test]
fn threshold_that_is_no_number_counts_nothing() {
    let frame1 = sample_frame(12, 3);
    let frame2 = sample_frame(12, 4);
    assert_eq!(detect_difference(&frame1, &frame2, 4, 3, threshold(f64::NAN)), 0);
    assert_eq!(detect_difference(&frame1, &frame2, 4, 3, threshold(-f64::NAN)), 0);
    assert_eq!(
        detect_difference(&frame1, &frame2, 4, 3, ColorThreshold::from_bits(0x7ff0_0000_0000_0001)),
        0
    );
}

#[test]
fn lower_threshold_never_finds_fewer() {
    let frame1 = sample_frame(100, 11);
    let frame2 = sample_frame(100, 12);
    let values = [
        f64::NEG_INFINITY, -1.0, -0.0, 0.0, 5e-324, 0.003, 0.004, 0.05, 0.1, 0.25, 0.5, 0.75, 0.99,
        1.0, 1.5, f64::MAX, f64::INFINITY,
    ];
    let mut previous = u32::MAX;
    for value in values {
        let count = detect_difference(&frame1, &frame2, 10, 10, threshold(value));
        assert!(count <= previous);
        assert!(count <= 100);
        previous = count;
    }
    assert_eq!(detect_difference(&frame1, &frame2, 10, 10, threshold(f64::NEG_INFINITY)), 100);
    assert_eq!(detect_difference(&frame1, &frame2, 10, 10, threshold(f64::INFINITY)), 0);
}

#[test]
fn alpha_is_ignored() {
    let frame1 = sample_frame(30, 21);
    let frame2 = sample_frame(30, 22);
    let mut other1 = frame1.clone();
    let mut other2 = frame2.clone();
    for i in 0..30 {
        other1[4 * i + 3] = other1[4 * i + 3].wrapping_add(1 + i as u8);
        other2[4 * i + 3] = 255 - other2[4 * i + 3];
    }
    for value in [0.0, 0.1, 0.3, 0.6, 0.9] {
        let count = detect_difference(&frame1, &frame2, 6, 5, threshold(value));
        assert_eq!(detect_difference(&other1, &other2, 6, 5, threshold(value)), count);
        assert_eq!(detect_difference(&frame1, &other1, 6, 5, threshold(value)), 0);
        let ratio = detect_difference_ratio(&other1, &other2, 6, 5, threshold(value));
        assert_eq!(ratio.differing, count);
    }
}

#[test]
fn count_agrees_with_floating_point() {
    let frame1 = sample_frame(256, 31);
    let frame2 = sample_frame(256, 32);
    let mut values = vec![
        0.0, -0.0, -1.0, 0.1, 0.2, 0.3, 0.6, 0.7, 1.0, 1.0000000000000002, 2.0, 1e-310, 1e-10,
        0.00390625, 0.001953125, f64::NAN, f64::INFINITY, f64::NEG_INFINITY, f64::MAX, 1e300,
    ];
    for d in 0..=255u32 {
        let exact = d as f64 / 255.0;
        values.push(exact);
        values.push(f64::from_bits(exact.to_bits() + 1));
        if d > 0 {
            values.push(f64::from_bits(exact.to_bits() - 1));
        }
        values.push(d as f64 / 256.0);
        values.push(d as f64 * 0.0039);
    }
    for value in values {
        assert_eq!(
            detect_difference(&frame1, &frame2, 16, 16, threshold(value)),
            count_with_floats(&frame1, &frame2, 256, value)
        );
    }
}

#[test]
fn cutoff_agrees_with_floating_point() {
    let mut values = vec![0.0, -0.0, -1e-320, 5e-324, 0.5, 1.0, f64::NAN, f64::INFINITY];
    let mut state: u64 = 99;
    for _ in 0..2000 {
        state = state.wrapping_mul(6364136223846793005).wrapping_add(1442695040888963407);
        values.push(f64::from_bits(state));
        values.push((state >> 11) as f64 / (1u64 << 53) as f64);
        values.push((state >> 11) as f64 / (1u64 << 60) as f64);
    }
    for value in values {
        let limit = threshold(value);
        assert_eq!(limit.to_bits(), value.to_bits());
        let cutoff = limit.cutoff();
        assert!(cutoff <= 256);
        for d in 0..=255u16 {
            assert_eq!(d as f64 / 255.0 > value, d >= cutoff);
        }
    }
}

#[test]
fn cutoff_of_common_thresholds() {
    assert_eq!(threshold(0.1).cutoff(), 26);
    assert_eq!(threshold(0.0).cutoff(), 1);
    assert_eq!(threshold(-0.0).cutoff(), 1);
    assert_eq!(threshold(-0.1).cutoff(), 0);
    assert_eq!(threshold(0.2).cutoff(), 52);
    assert_eq!(threshold(0.5).cutoff(), 128);
    assert_eq!(threshold(1.0).cutoff(), 256);
    assert_eq!(threshold(f64::NAN).cutoff(), 256);
}
