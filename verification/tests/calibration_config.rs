use rmk_config_reel::calibration_config::{
    same_calibration, CalibrationConfigWatcher, LegacyScan, CALIBRATION_SLOT_COUNT, LEGACY_READ_SIZE,
};
use rmk_config_reel::calibration_data::{encode_blob, Calibration, MatrixCoefficients};

const CUSTOM: MatrixCoefficients = MatrixCoefficients { m00: 1000, m01: 0, m10: 0, m11: 1000 };
const OTHER: MatrixCoefficients = MatrixCoefficients { m00: 0, m01: 1000, m10: -1000, m11: 0 };

fn legacy_blob(m: MatrixCoefficients) -> [u8; 28] {
    let mut blob = [0u8; 28];
    blob[..4].copy_from_slice(b"RLC1");
    blob[4] = 1;
    blob[6..8].copy_from_slice(&1000u16.to_le_bytes());
    for (i, v) in [m.m00, m.m01, m.m10, m.m11].into_iter().enumerate() {
        blob[8 + 4 * i..12 + 4 * i].copy_from_slice(&v.to_le_bytes());
    }
    let mut hash = 2166136261u32;
    for byte in &blob[..24] {
        hash = (hash ^ u32::from(*byte)).wrapping_mul(16777619);
    }
    blob[24..].copy_from_slice(&hash.to_le_bytes());
    blob
}

fn scan(region: &[u8]) -> Option<MatrixCoefficients> {
    let mut scan = LegacyScan::new();
    for chunk in region.chunks(LEGACY_READ_SIZE) {
        scan.feed(chunk);
    }
    scan.latest()
}

#[test]
fn legacy_scan_finds_last_record_across_read_boundaries() {
    let mut region = vec![0xffu8; 0x6000];
    // A record that straddles the first read boundary, then a later one.
    region[240..268].copy_from_slice(&encode_blob(Calibration::from_matrix(CUSTOM)));
    assert_eq!(scan(&region), Some(CUSTOM));
    region[5000..5028].copy_from_slice(&legacy_blob(OTHER));
    assert_eq!(scan(&region), Some(OTHER));
    // A damaged later record does not hide the earlier valid one.
    region[5010] ^= 1;
    assert_eq!(scan(&region), Some(CUSTOM));
}

#[test]
fn legacy_scan_of_empty_or_short_region_finds_nothing() {
    assert_eq!(scan(&[]), None);
    assert_eq!(scan(&[0x52, 0x4c, 0x43, 0x31]), None);
    assert_eq!(scan(&vec![0xff; 1000]), None);
}

#[test]
fn record_at_region_end_is_found() {
    let mut region = vec![0u8; 300];
    region[272..300].copy_from_slice(&encode_blob(Calibration::from_matrix(CUSTOM)));
    assert_eq!(scan(&region), Some(CUSTOM));
}

#[test]
fn journal_load_stops_at_first_erased_slot() {
    let first = encode_blob(Calibration::from_matrix(CUSTOM));
    let second = encode_blob(Calibration::from_matrix(OTHER));
    let erased = [0xffu8; 28];
    let mut watcher = CalibrationConfigWatcher::with_migration(None);
    let mut latest = None;
    assert!(watcher.load_slot(0, Some(&first), &mut latest));
    assert!(watcher.load_slot(1, Some(&second), &mut latest));
    assert!(!watcher.load_slot(2, Some(&erased), &mut latest));
    assert_eq!(latest.unwrap().matrix, OTHER);
    assert_eq!(watcher.next_slot, 2);
    // A failed read also stops the load; the journal continues there.
    let mut latest = None;
    assert!(watcher.load_slot(0, Some(&first), &mut latest));
    assert!(!watcher.load_slot(1, None, &mut latest));
    assert_eq!(latest.unwrap().matrix, CUSTOM);
    assert_eq!(watcher.next_slot, 1);
}

#[test]
fn journal_wraps_after_the_last_slot() {
    let mut watcher = CalibrationConfigWatcher::with_migration(None);
    assert_eq!(CALIBRATION_SLOT_COUNT, 146);
    for slot in 0..CALIBRATION_SLOT_COUNT {
        assert!(!watcher.needs_erase());
        assert_eq!(watcher.write_offset(), (slot * 28) as u32);
        watcher.record_written();
    }
    assert!(watcher.needs_erase());
    watcher.region_erased();
    assert_eq!(watcher.write_offset(), 0);
}

#[test]
fn initialize_prefers_persisted_then_migration_then_macro() {
    let persisted = Calibration::from_matrix(CUSTOM);
    let macro_record = Calibration::from_matrix(OTHER);
    let watcher = CalibrationConfigWatcher::with_migration(Some(OTHER));
    let plan = watcher.plan_initialize(Some(persisted), Some(macro_record), 2);
    assert!(same_calibration(&plan.calibration, &persisted));
    assert!(plan.rewrite_macro);
    assert!(!plan.persist);
    let plan = watcher.plan_initialize(None, None, 2);
    assert_eq!(plan.calibration.matrix, OTHER);
    assert!(plan.persist);
    let watcher = CalibrationConfigWatcher::with_migration(None);
    let plan = watcher.plan_initialize(None, Some(macro_record), 2);
    assert!(same_calibration(&plan.calibration, &macro_record));
    assert!(!plan.rewrite_macro);
    let plan = watcher.plan_initialize(None, Some(macro_record), 1);
    assert!(plan.rewrite_macro);
    let plan = watcher.plan_initialize(None, None, 2);
    assert!(same_calibration(&plan.calibration, &Calibration::default()));
    assert!(plan.rewrite_macro);
}

#[test]
fn refresh_keeps_amounts_for_legacy_records() {
    let mut watcher = CalibrationConfigWatcher::with_migration(None);
    let applied = Calibration {
        matrix: CUSTOM,
        gains: [1500, 800, 1000, 1200],
        sensitivity: 120,
    };
    watcher.record_applied(applied);
    watcher.record_persisted(applied);
    let plan = watcher.plan_refresh(&legacy_blob(OTHER)).unwrap();
    assert_eq!(plan.calibration.matrix, OTHER);
    assert_eq!(plan.calibration.gains, applied.gains);
    assert_eq!(plan.calibration.sensitivity, 120);
    assert!(plan.rewrite_macro && plan.apply && plan.persist);
    // The same record again changes nothing.
    let plan = watcher.plan_refresh(&encode_blob(applied)).unwrap();
    assert!(!plan.rewrite_macro && !plan.apply && !plan.persist);
    // A damaged record is ignored.
    let mut blob = encode_blob(applied);
    blob[10] ^= 1;
    assert!(watcher.plan_refresh(&blob).is_none());
}

#[test]
fn calibration_refresh_meets_the_25_ms_promise() {
    assert!(rmk_config_reel::calibration_config::CONFIG_REFRESH_INTERVAL_MS <= 25);
}
