use rmk_config_reel::smart_aml_trigger::{
    relative_xy, AxisId, AxisValue, MotionAccumulator, SmartAutoMouseTrigger,
};

#[test]
fn alternating_jitter_cancels_out() {
    let mut motion = MotionAccumulator::default();

    for _ in 0..20 {
        assert!(!motion.add(1, 0));
        assert!(!motion.add(-1, 0));
    }
}

#[test]
fn slow_consistent_motion_eventually_triggers() {
    let mut motion = MotionAccumulator::default();

    for _ in 0..11 {
        assert!(!motion.add(1, 0));
    }
    assert!(motion.add(1, 0));
}

#[test]
fn single_large_step_triggers_immediately() {
    let mut trigger = SmartAutoMouseTrigger::with_window(0, 1, 3, 100_000);
    assert_eq!(trigger.handle_motion(0, 0, -12, false, 0), Some(3));
    assert_eq!(trigger.handle_motion(0, 11, 0, false, 10), None);
}

#[test]
fn motion_far_apart_does_not_accumulate() {
    let mut trigger = SmartAutoMouseTrigger::with_window(0, 1, 3, 100_000);
    assert_eq!(trigger.handle_motion(0, 6, 0, false, 0), None);
    assert_eq!(trigger.handle_motion(0, 6, 0, false, 100_001), None);
    assert_eq!(trigger.handle_motion(0, 6, 0, false, 200_001), Some(3));
}

#[test]
fn other_devices_and_held_layers_are_ignored() {
    let mut trigger = SmartAutoMouseTrigger::with_window(0, 1, 3, 100_000);
    assert_eq!(trigger.handle_motion(1, 100, 0, false, 0), None);
    assert_eq!(trigger.handle_motion(0, 8, 0, false, 0), None);
    assert_eq!(trigger.handle_motion(0, 100, 0, true, 10), None);
    assert_eq!(trigger.accumulated_motion.x, 0);
    assert_eq!(trigger.last_motion_at, None);
    assert_eq!(trigger.handle_motion(0, 8, 0, false, 20), None);
}

#[test]
fn relative_axes_are_summed() {
    let axes = [
        AxisValue { relative: true, axis: AxisId::X, value: 5 },
        AxisValue { relative: false, axis: AxisId::Y, value: 9 },
        AxisValue { relative: true, axis: AxisId::Y, value: -3 },
        AxisValue { relative: true, axis: AxisId::Other, value: 7 },
    ];
    assert_eq!(relative_xy(&axes), (5, -3));
}

#[test]
fn default_window_is_a_hundred_milliseconds_of_clock_ticks() {
    let trigger = SmartAutoMouseTrigger::new(2, 5, -4);
    let expected = (100 * embassy_time::TICK_HZ).div_ceil(1000);
    assert_eq!(trigger.accumulation_window, expected);
    assert_eq!((trigger.source_device_id, trigger.trigger_device_id, trigger.trigger_delta), (2, 5, -4));
}
