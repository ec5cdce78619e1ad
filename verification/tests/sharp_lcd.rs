use rmk_config_reel::sharp_lcd::{
    active_layer_pixels, base_pixels, battery_fill_pixels, battery_fill_width, battery_level,
    battery_text, charging_mark_pixels, percent_pixels, percent_position, profile_shapes, shape_pixels,
    split_connection_shapes, BatteryStatus, ChargeState, ReelStatusRenderer, Shape, SharpBus, SharpDisplay,
    StatusSnapshot, HEIGHT,
};

#[test]
fn rotated_pixel_lands_in_its_physical_line() {
    let mut display = SharpDisplay::new();
    assert!(display.needs_flush());
    assert_eq!(display.dirty_lines(), (0..HEIGHT).collect::<Vec<_>>());
    display.mark_flushed();
    assert!(!display.needs_flush());
    assert!(display.dirty_lines().is_empty());
    // Logical (3, 0) is physical (159, 3): line 3, last byte, top bit; active-low.
    display.draw_pixel(3, 0, true);
    assert_eq!(display.dirty_lines(), [3]);
    let message = display.line_message(3);
    assert_eq!(message.len(), 21);
    assert_eq!(message[0], 4);
    assert_eq!(message[20], 0x7f);
    // Drawing it white again restores the flushed frame.
    display.draw_pixel(3, 0, false);
    assert!(!display.needs_flush());
    // Off-screen pixels are ignored.
    display.draw_pixel(-1, 5, true);
    display.draw_pixel(68, 5, true);
    display.draw_pixel(5, 160, true);
    assert!(!display.needs_flush());
}

#[test]
fn clear_fills_every_line() {
    let mut display = SharpDisplay::new();
    display.mark_flushed();
    display.clear(true);
    assert_eq!(display.dirty_lines().len(), HEIGHT);
    assert!(display.line_message(67)[1..].iter().all(|b| *b == 0));
}

#[test]
fn vcom_alternates() {
    let mut bus = SharpBus::new();
    assert_eq!(bus.write_command(), 0x03);
    assert_eq!(bus.invert_vcom(), [0x00, 0x00]);
    assert_eq!(bus.write_command(), 0x03);
    assert_eq!(bus.clear(), [0x04, 0x00]);
}

#[test]
fn battery_gauge_fill_and_text() {
    assert_eq!(battery_fill_width(None), 0);
    assert_eq!(battery_fill_width(Some(0)), 0);
    assert_eq!(battery_fill_width(Some(50)), 7);
    assert_eq!(battery_fill_width(Some(100)), 13);
    assert_eq!(battery_text(Some(100)), b"100");
    assert_eq!(battery_text(Some(42)), b"42");
    assert_eq!(battery_text(Some(7)), b"7");
    assert_eq!(battery_text(None), b"--");
    // Above 100 the single character is no digit, and the percent sign moves one step in.
    assert_eq!(battery_text(Some(150)), [0x30 + 150]);
    assert_eq!(percent_position(Some(150)), percent_position(Some(7)));
    assert_eq!(percent_position(Some(100)), (42, 4));
    assert_eq!(percent_position(Some(7)), (30, 4));
    let fill = battery_fill_pixels(Some(100));
    assert_eq!(fill.len(), 13 * 5);
    assert!(fill.iter().all(|&(x, y, on)| (4..=16).contains(&x) && (6..=10).contains(&y) && on));
    assert!(battery_fill_pixels(Some(0)).is_empty());
}

#[test]
fn charging_mark_is_white_over_the_fill() {
    let bare = charging_mark_pixels(0);
    assert_eq!(bare.len(), 1 + 2 + 5 + 2 + 2);
    assert!(bare.iter().all(|&(_, _, on)| on));
    let over = charging_mark_pixels(13);
    assert!(over.iter().all(|&(_, _, on)| !on));
    // A fill of 6 covers x 4..=9: the mark's columns 8 and 9 turn white.
    for (x, _, on) in charging_mark_pixels(6) {
        assert_eq!(on, x > 9);
    }
}

#[test]
fn percent_sign_and_shapes() {
    let sign = percent_pixels(30, 4);
    let bits: u32 = [0x4eu8, 0x2a, 0x2a, 0x1e, 0xf0, 0xa8, 0xa4, 0xe4].iter().map(|b| b.count_ones()).sum();
    assert_eq!(sign.len(), bits as usize);
    assert!(sign.contains(&(31, 4, true)));
    let outline = shape_pixels(Shape::Rectangle(52, 9, 55, 12, false));
    assert_eq!(outline.len(), 12);
    let filled = shape_pixels(Shape::Rectangle(52, 9, 55, 12, true));
    assert_eq!(filled.len(), 16);
    assert_eq!(split_connection_shapes(true)[2], Shape::Rectangle(62, 3, 65, 12, true));
    let profiles = profile_shapes(9);
    assert_eq!(profiles[4], Shape::Rectangle(55, 148, 59, 152, true));
    assert_eq!(profiles[0], Shape::Rectangle(23, 148, 27, 152, false));
    assert_eq!(active_layer_pixels(7)[0], (4, 104, true));
    assert_eq!(active_layer_pixels(0)[3], (7, 67, true));
}

#[test]
fn base_image_bits_become_pixels() {
    let mut base = vec![0u8; 9 * 160];
    base[0] = 0b1000_0001;
    base[9 * 159 + 8] = 0b1000;
    let mut pixels = base_pixels(&base);
    pixels.sort();
    assert_eq!(pixels, [(0, 0, true), (7, 0, true), (67, 159, true)]);
}

#[test]
fn snapshot_clamps_and_renders_on_change() {
    let status = BatteryStatus::Available {
        charge_state: ChargeState::Charging,
        level: Some(130),
    };
    assert_eq!(battery_level(status), Some(100));
    let snapshot = StatusSnapshot::from_context(status, true, None, true, 9, 9);
    assert_eq!(snapshot.battery_level, Some(100));
    assert!(snapshot.battery_charging);
    assert!(!snapshot.split_connected);
    assert_eq!((snapshot.layer, snapshot.profile), (3, 4));
    let peripheral = StatusSnapshot::from_context(BatteryStatus::Unavailable, false, None, true, 1, 2);
    assert!(peripheral.split_connected);
    assert_eq!(peripheral.battery_level, None);
    let mut renderer = ReelStatusRenderer::new(true);
    assert!(renderer.should_render(snapshot));
    assert!(!renderer.should_render(snapshot));
    assert!(renderer.should_render(peripheral));
}
