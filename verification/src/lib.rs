//! Verified logic of the ReeL split keyboard's firmware: the trackball pipeline (calibration,
//! transform, heading filter, gain and report chunking), the rotary encoder's decoders, trace
//! and log format, the status and diagnostic displays, and the firmware's small decisions.
use vstd::prelude::*;

pub mod rotary_decoder;
pub mod fixed_math;
pub mod clock;
pub mod calibration_data;
pub mod trackball_transform;
pub mod adaptive_heading_filter;
pub mod motion_gain;
pub mod motion_chunk;
pub mod lcd_dirty_lines;
pub mod smart_aml_trigger;
pub mod mouse_layer_priority;
pub mod profile_cpi_config;
pub mod rotary_sampled_decoder;
pub mod rotary_trace;
pub mod rotary_log;
pub mod log_text;
pub mod replay;
pub mod log_round_trip;
pub mod log_checks;
pub mod calibration_config;
pub mod transformed_pointing_device;
pub mod rotary_session;
pub mod sharp_lcd;
pub mod rotary_diagnostics;
pub mod rotary_capture;
pub mod central;
pub mod xiao_battery;
pub mod quick_mod_tap;

verus! {
} // verus!
