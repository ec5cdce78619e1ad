use rmk_config_reel::calibration_config::{
    calibration_words, current_calibration, generation_is_stable, same_calibration,
};
use rmk_config_reel::calibration_data::{Calibration, MatrixCoefficients};
use rmk_config_reel::central::{ble_addr, TRACKBALL_REPORT_HZ};
use rmk_config_reel::quick_mod_tap::{
    MorseMode, QuickModTap, HOLD_AFTER_TAP_PATTERN, HOLD_PATTERN, TAP_PATTERN,
};
use rmk_types::action::Action;
use rmk_types::keycode::{HidKeyCode, KeyCode};
use rmk_types::morse::{DOUBLE_TAP, HOLD, HOLD_AFTER_TAP, TAP};
use rmk_config_reel::rotary_capture::{
    frame_accepted, initial_channels, latch_fault, receive_result, startup_fault, EQ_CHANNELS,
    FRAME_CHANNELS, NE_CHANNELS,
};
use rmk_config_reel::rotary_decoder::Frame;
use rmk_config_reel::xiao_battery::{PeripheralBatterySnapshot, XiaoChargingStateReader};

#[test]
fn capture_starts_in_the_group_of_the_resting_levels() {
    assert_eq!(initial_channels(true, true), FRAME_CHANNELS | EQ_CHANNELS);
    assert_eq!(initial_channels(false, false), FRAME_CHANNELS | EQ_CHANNELS);
    assert_eq!(initial_channels(true, false), FRAME_CHANNELS | NE_CHANNELS);
    assert_eq!(startup_fault(false, false), None);
    assert_eq!(startup_fault(false, true), Some(1));
}

#[test]
fn interrupt_accepts_only_the_next_unchanged_frame() {
    assert!(frame_accepted(5, 5, 4, false));
    assert!(frame_accepted(0, 0, u32::MAX, false));
    assert!(!frame_accepted(5, 6, 4, false));
    assert!(!frame_accepted(6, 6, 4, false));
    assert!(!frame_accepted(5, 5, 4, true));
}

#[test]
fn first_fault_stays_latched() {
    let mut fault = 0;
    for code in [2, 3, 5] {
        fault = latch_fault(fault, code);
    }
    assert_eq!(fault, 2);
    let frame = Frame { positive: 1, negative: 0, sequence: 1 };
    assert_eq!(receive_result(Some(frame), 0), Ok(frame));
    assert_eq!(receive_result(Some(frame), 4), Err(4));
    assert_eq!(receive_result(None, 3), Err(3));
}

#[test]
fn ble_address_is_static_random() {
    assert_eq!(
        ble_addr(0x4433_2211, 0x8877_6655),
        [0x11, 0x22, 0x33, 0x44, 0x55, 0xe6]
    );
    assert_eq!(ble_addr(0, 0), [0, 0, 0, 0, 0, 0xc0]);
}

#[test]
fn charging_reports_only_changes() {
    let mut reader = XiaoChargingStateReader::new(true);
    assert!(reader.charging);
    assert_eq!(reader.on_edge(true), None);
    assert_eq!(reader.on_edge(false), Some(false));
    assert_eq!(reader.on_edge(false), None);
}

#[test]
fn battery_snapshot_replays_on_connection() {
    let mut snapshot = PeripheralBatterySnapshot::new();
    assert_eq!(snapshot.on_connection(true), None);
    snapshot.on_status(87u8);
    assert_eq!(snapshot.on_connection(false), None);
    assert_eq!(snapshot.on_connection(true), Some(87));
}

#[test]
fn quick_mod_tap_profile() {
    let key = QuickModTap::new(Action::No, Action::No, Action::No);
    let settings = key.settings();
    assert_eq!(settings.mode, Some(MorseMode::HoldOnOtherPress));
    assert_eq!(settings.hold_timeout_ms, Some(220));
    assert_eq!(settings.gap_timeout_ms, Some(200));
    assert_eq!(settings.unilateral_tap, Some(false));
}

#[test]
fn quick_mod_tap_morse_key() {
    let tap = Action::Key(KeyCode::Hid(HidKeyCode::A));
    let hold = Action::Key(KeyCode::Hid(HidKeyCode::LShift));
    let dance = Action::LayerOn(2);
    let morse = QuickModTap::new(tap, hold, dance).into_morse();
    assert_eq!(morse.profile.mode(), Some(rmk_types::morse::MorseMode::HoldOnOtherPress));
    assert_eq!(morse.profile.hold_timeout_ms(), Some(220));
    assert_eq!(morse.profile.gap_timeout_ms(), Some(200));
    assert_eq!(morse.profile.unilateral_tap(), Some(false));
    assert_eq!(morse.actions.get(&TAP), Some(&tap));
    assert_eq!(morse.actions.get(&HOLD), Some(&hold));
    assert_eq!(morse.actions.get(&HOLD_AFTER_TAP), Some(&dance));
    assert_eq!(morse.actions.get(&DOUBLE_TAP), None);
}

#[test]
fn morse_pattern_bits_match_rmk() {
    assert_eq!(TAP.to_u16(), TAP_PATTERN);
    assert_eq!(HOLD.to_u16(), HOLD_PATTERN);
    assert_eq!(HOLD_AFTER_TAP.to_u16(), HOLD_AFTER_TAP_PATTERN);
}

#[test]
fn shared_words_round_trip() {
    let config = Calibration {
        matrix: MatrixCoefficients { m00: -265, m01: 1142, m10: -831, m11: 562 },
        gains: [500, 1000, 1500, 2000],
        sensitivity: 150,
    };
    let words = calibration_words(config);
    assert_eq!(words.gains, [500, 1000, 1500, 2000]);
    assert!(same_calibration(&current_calibration(words), &config));
    assert!(generation_is_stable(4, 4));
    assert!(!generation_is_stable(5, 5));
    assert!(!generation_is_stable(4, 6));
}

#[test]
fn trackball_reports_at_250_hz() {
    assert_eq!(TRACKBALL_REPORT_HZ, 250);
}
