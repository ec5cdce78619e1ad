use rmk_config_reel::mouse_layer_priority::{
    manual_layer_bit, manual_layer_bit_from_action, manual_layer_is_active, MouseLayerPriority,
    AUTO_MOUSE_LAYER,
};

#[test]
fn auto_mouse_layer_and_out_of_range_layers_have_no_bit() {
    assert_eq!(manual_layer_bit(AUTO_MOUSE_LAYER), None);
    assert_eq!(manual_layer_bit(8), None);
    assert_eq!(manual_layer_bit(0), Some(1));
    assert_eq!(manual_layer_bit(7), Some(128));
    assert_eq!(manual_layer_bit_from_action(None), None);
    assert_eq!(manual_layer_bit_from_action(Some(2)), Some(4));
}

#[test]
fn held_layer_is_active_until_release() {
    let mut priority = MouseLayerPriority::new();
    assert!(!manual_layer_is_active(priority.mask));
    assert!(priority.handle_event(Some(1), true));
    assert!(manual_layer_is_active(priority.mask));
    assert!(!priority.handle_event(Some(3), true));
    assert!(!priority.handle_event(None, true));
    assert!(!priority.handle_event(Some(1), false));
    assert!(!manual_layer_is_active(priority.mask));
}
