use rmk_config_reel::adaptive_heading_filter::AdaptiveHeadingFilter;

fn length_squared(x: i16, y: i16) -> i64 {
    i64::from(x) * i64::from(x) + i64::from(y) * i64::from(y)
}

#[test]
fn first_vector_is_unchanged() {
    let mut filter = AdaptiveHeadingFilter::new();
    assert_eq!(filter.apply(921, 391), (921, 391));
}

#[test]
fn straight_motion_is_unchanged() {
    let mut filter = AdaptiveHeadingFilter::new();
    for _ in 0..100 {
        assert_eq!(filter.apply(1000, 0), (1000, 0));
    }
}

#[test]
fn small_heading_jitter_is_reduced() {
    let mut filter = AdaptiveHeadingFilter::new();
    let mut raw_error = 0_i64;
    let mut filtered_error = 0_i64;

    for y in [40, -35, 30, -40, 35, -30, 25, -35] {
        raw_error += i64::from(y) * i64::from(y);
        let (_, filtered_y) = filter.apply(1000, y);
        filtered_error += i64::from(filtered_y) * i64::from(filtered_y);
    }

    assert!(filtered_error < raw_error / 2);
}

#[test]
fn arbitrary_heading_does_not_snap_to_an_axis() {
    let mut filter = AdaptiveHeadingFilter::new();
    let mut total_x = 0_i64;
    let mut total_y = 0_i64;

    for _ in 0..100 {
        let (x, y) = filter.apply(921, 391);
        total_x += i64::from(x);
        total_y += i64::from(y);
    }

    assert!((total_y * 921 - total_x * 391).abs() < total_x.abs());
}

#[test]
fn right_angle_turn_is_immediate() {
    let mut filter = AdaptiveHeadingFilter::new();
    for _ in 0..3 {
        assert_eq!(filter.apply(1000, 0), (1000, 0));
    }
    assert_eq!(filter.apply(0, 1000), (0, 1000));
}

#[test]
fn reversal_is_immediate() {
    let mut filter = AdaptiveHeadingFilter::new();
    assert_eq!(filter.apply(1000, 0), (1000, 0));
    assert_eq!(filter.apply(1000, 0), (1000, 0));
    assert_eq!(filter.apply(-1000, 0), (-1000, 0));
}

#[test]
fn filtered_vector_preserves_magnitude() {
    let mut filter = AdaptiveHeadingFilter::new();
    filter.apply(1000, 0);
    let input = (1000, 176);
    let output = filter.apply(input.0, input.1);
    assert!((length_squared(input.0, input.1) - length_squared(output.0, output.1)).abs() < 2500);
}

#[test]
fn handles_i16_extremes() {
    let mut filter = AdaptiveHeadingFilter::new();
    assert_eq!(filter.apply(i16::MAX, i16::MAX), (i16::MAX, i16::MAX));
    let _ = filter.apply(i16::MAX, 30_000);
}

#[test]
fn reset_discards_previous_heading() {
    let mut filter = AdaptiveHeadingFilter::new();
    filter.apply(1000, 0);
    filter.reset_heading();
    assert_eq!(filter.apply(921, 391), (921, 391));
}

#[test]
fn zero_motion_produces_no_output() {
    let mut filter = AdaptiveHeadingFilter::new();
    assert_eq!(filter.apply(0, 0), (0, 0));
    assert_eq!(filter.apply(1000, 0), (1000, 0));
    assert_eq!(filter.apply(0, 0), (0, 0));
}

#[test]
fn small_turn_is_blended_toward_previous_heading() {
    // A turn of about 2 degrees keeps three quarters of the old heading.
    let mut filter = AdaptiveHeadingFilter::new();
    assert_eq!(filter.apply(1000, 0), (1000, 0));
    let (x, y) = filter.apply(1000, 35);
    assert!(x >= 999 && x <= 1001, "x={x}");
    assert!(y > 0 && y < 35, "y={y}");
}
