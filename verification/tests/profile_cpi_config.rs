use rmk_config_reel::profile_cpi_config::{CpiRequest, ProfileCpiConfigWatcher, PROFILE_CPI};

#[test]
fn bt2_uses_lower_fixed_cpi() {
    assert_eq!(PROFILE_CPI, [1600, 800, 1600, 1600, 1600]);
}

#[test]
fn profile_changes_request_cpi_once() {
    let mut watcher = ProfileCpiConfigWatcher::new(7);
    assert_eq!(watcher.update_profile(0), None);
    assert_eq!(watcher.update_profile(1), Some(CpiRequest { device_id: 7, cpi: 800 }));
    assert_eq!(watcher.update_profile(1), None);
    assert_eq!(watcher.update_profile(9), Some(CpiRequest { device_id: 7, cpi: 1600 }));
    assert_eq!(watcher.active_profile, 4);
    assert_eq!(watcher.restore_current_profile(1), CpiRequest { device_id: 7, cpi: 800 });
}
