use rmk_config_reel::adaptive_heading_filter::AdaptiveHeadingFilter;
use rmk_config_reel::calibration_data::MatrixCoefficients;
use rmk_config_reel::motion_gain::MotionGain;
use rmk_config_reel::trackball_transform::TrackballTransform;
use rmk_config_reel::transformed_pointing_device::{
    InitOutcome, InitStep, PointingReport, TransformingPointingDevice,
};

const IDENTITY: MatrixCoefficients = MatrixCoefficients { m00: 1000, m01: 0, m10: 0, m11: 1000 };

#[test]
fn start_up_gives_up_after_three_failures() {
    let mut device = TransformingPointingDevice::with_intervals(0, 4000, 500);
    assert!(device.needs_init());
    assert_eq!(device.begin_init(), InitStep::Attempt);
    assert_eq!(device.init_result(false), InitOutcome::Retry);
    assert_eq!(device.begin_init(), InitStep::Attempt);
    assert_eq!(device.init_result(false), InitOutcome::Retry);
    assert_eq!(device.begin_init(), InitStep::Attempt);
    assert_eq!(device.init_result(false), InitOutcome::Failed);
    assert_eq!(device.begin_init(), InitStep::Failed);
    assert!(device.needs_init());
}

#[test]
fn requested_resolution_is_set_once_the_sensor_runs() {
    let mut device = TransformingPointingDevice::with_intervals(2, 4000, 500);
    // A request for another device is ignored.
    assert_eq!(device.on_pointing_set_cpi_event(1, 800), None);
    // Before start-up the request is kept for later.
    assert_eq!(device.on_pointing_set_cpi_event(2, 1200), None);
    assert_eq!(device.begin_init(), InitStep::Attempt);
    assert_eq!(device.init_result(true), InitOutcome::Ready(Some(1200)));
    assert_eq!(device.begin_init(), InitStep::Ready);
    assert!(!device.needs_init());
    // Once running, a request is applied at once.
    assert_eq!(device.on_pointing_set_cpi_event(2, 1600), Some(1600));
}

#[test]
fn no_motion_gives_no_report() {
    let mut device = TransformingPointingDevice::with_intervals(0, 4000, 500);
    assert!(!device.has_report_data());
    assert!(!device.report_due(1_000_000));
    assert_eq!(device.flush_report(IDENTITY), None);
}

#[test]
fn report_is_due_only_after_the_interval() {
    let mut device = TransformingPointingDevice::with_intervals(0, 4000, 500);
    device.accumulate(3, 0);
    assert!(device.has_report_data());
    assert!(!device.report_due(3999));
    assert!(device.report_due(4000));
}

#[test]
fn identity_motion_is_halved_by_the_default_gain() {
    let mut device = TransformingPointingDevice::with_intervals(7, 4000, 500);
    device.accumulate(40, 0);
    device.accumulate(0, -20);
    let report = device.flush_report(IDENTITY).unwrap();
    assert_eq!(report, PointingReport { device_id: 7, x: 20, y: -10 });
    assert!(!device.has_report_data());
}

#[test]
fn large_motion_is_spread_over_reports_without_loss() {
    let mut device = TransformingPointingDevice::with_intervals(0, 4000, 500);
    // More than one i16 vector of raw motion.
    for _ in 0..3 {
        device.accumulate(i16::MAX, 0);
    }
    let mut total = 0i64;
    let mut reports = 0;
    while device.has_report_data() {
        let report = device.flush_report(IDENTITY).unwrap();
        assert_eq!(report.y, 0);
        assert!(report.x > 0);
        total += i64::from(report.x);
        reports += 1;
        assert!(reports < 10_000);
    }
    // Half gain of 3 * 32767 counts, up to the one sub-count remainder that stays behind.
    assert!((total - 3 * 32767 / 2).abs() <= 1);
}

#[test]
fn accumulation_saturates() {
    let mut device = TransformingPointingDevice::with_intervals(0, 4000, 500);
    for _ in 0..70_000 {
        device.accumulate(i16::MIN, i16::MAX);
    }
    assert!(device.has_report_data());
}

#[test]
fn poll_interval_is_at_most_the_report_interval() {
    let device = TransformingPointingDevice::with_intervals(0, 4000, 500);
    assert_eq!((device.report_interval(), device.poll_interval()), (4000, 500));
    let device = TransformingPointingDevice::with_intervals(0, 300, 500);
    assert_eq!((device.report_interval(), device.poll_interval()), (300, 300));
}

#[test]
fn report_rate_sets_the_intervals_in_clock_ticks() {
    let tick_hz = embassy_time::TICK_HZ;
    let device = TransformingPointingDevice::with_report_hz(3, 125);
    let report = (tick_hz + 62) / 125;
    let poll = (500 * tick_hz).div_ceil(1_000_000);
    assert_eq!(device.report_interval(), report);
    assert_eq!(device.poll_interval(), poll.min(report));
}

#[test]
fn reports_go_through_the_heading_filter() {
    let mut device = TransformingPointingDevice::with_intervals(0, 4000, 500);
    let mut transform = TrackballTransform::new();
    let mut filter = AdaptiveHeadingFilter::new();
    let mut gain = MotionGain::new();
    let mut filtered_any = false;
    for (x, y) in [(100, 0), (100, 8), (100, -6), (0, 100), (3, 97)] {
        device.accumulate(x, y);
        let report = device.flush_report(IDENTITY).unwrap();
        let (tx, ty) = transform.apply(x, y, IDENTITY);
        let (fx, fy) = filter.apply(tx, ty);
        filtered_any |= (fx, fy) != (tx, ty);
        let (gx, gy) = gain.apply(fx, fy);
        assert_eq!((i16::from(report.x), i16::from(report.y)), (gx, gy));
        assert!(!device.has_report_data());
    }
    // Small changes of direction are smoothed.
    assert!(filtered_any);
}

#[test]
fn sub_count_motion_carries_over_to_later_reports() {
    let mut device = TransformingPointingDevice::with_intervals(0, 4000, 500);
    let mut total = 0i32;
    for _ in 0..6 {
        device.accumulate(1, 0);
        if let Some(report) = device.flush_report(IDENTITY) {
            total += i32::from(report.x);
        }
    }
    // Half gain: six counts of motion, one count at a time, move the pointer by three.
    assert_eq!(total, 3);
}
