use rmk_config_reel::calibration_data::MatrixCoefficients;
use rmk_config_reel::fixed_math::integer_sqrt;
use rmk_config_reel::trackball_transform::{TrackballTransform, TransformMode};

fn default_transform() -> TrackballTransform {
    TrackballTransform::new()
}

#[test]
fn integer_sqrt_rounds_down() {
    assert_eq!(integer_sqrt(0), 0);
    assert_eq!(integer_sqrt(1), 1);
    assert_eq!(integer_sqrt(2), 1);
    assert_eq!(integer_sqrt(9), 3);
    assert_eq!(integer_sqrt(15), 3);
}

#[test]
fn integer_sqrt_of_large_values() {
    assert_eq!(integer_sqrt(u64::MAX), 0xffff_ffff);
    assert_eq!(integer_sqrt(1 << 62), 1 << 31);
    assert_eq!(integer_sqrt((1 << 62) - 1), (1 << 31) - 1);
}

#[test]
fn applies_calibrated_matrix_with_near_unit_length() {
    let mut transform = default_transform();
    for (raw_x, raw_y) in [(1000, 0), (0, 1000), (707, 707), (-707, 707)] {
        let (x, y) = transform.apply(raw_x, raw_y, MatrixCoefficients::default());
        let length_squared = i64::from(x) * i64::from(x) + i64::from(y) * i64::from(y);
        assert!((950_000..=1_050_000).contains(&length_squared));
    }
}

#[test]
fn retains_fractional_motion() {
    let mut transform = TrackballTransform::with_mode(TransformMode::DirectionLut);
    let mut total_x = 0_i32;
    let mut total_y = 0_i32;
    for _ in 0..1000 {
        let (x, y) = transform.apply(1, 0, MatrixCoefficients::default());
        total_x += i32::from(x);
        total_y += i32::from(y);
    }
    assert!((total_x + 303).abs() <= 2, "total_x={total_x}");
    assert!((total_y + 953).abs() <= 2, "total_y={total_y}");
}

#[test]
fn rotation_mode_preserves_length() {
    let mut transform = TrackballTransform::with_mode(TransformMode::Rotation);
    let quarter_turn = MatrixCoefficients {
        m00: 0,
        m01: -1000,
        m10: 1000,
        m11: 0,
    };
    let (x, y) = transform.apply(1000, 0, quarter_turn);
    let length_squared = i64::from(x) * i64::from(x) + i64::from(y) * i64::from(y);
    assert!((990_000..=1_010_000).contains(&length_squared));
}

#[test]
fn automatic_mode_preserves_calibrated_direction() {
    let mut raw_x_transform = default_transform();
    let (raw_x_output, raw_x_vertical) =
        raw_x_transform.apply(1000, 0, MatrixCoefficients::default());
    assert_eq!(raw_x_transform.active_mode(), TransformMode::DirectionLut);
    assert!(raw_x_output < 0, "raw X output={raw_x_output}");
    assert!(raw_x_vertical < 0, "raw X vertical output={raw_x_vertical}");

    let mut raw_y_transform = default_transform();
    let (raw_y_output, raw_y_vertical) =
        raw_y_transform.apply(0, 1000, MatrixCoefficients::default());
    assert_eq!(raw_y_transform.active_mode(), TransformMode::DirectionLut);
    assert!(raw_y_output > 0, "raw Y output={raw_y_output}");
    assert!(raw_y_vertical > 0, "raw Y vertical output={raw_y_vertical}");
}

#[test]
fn automatic_mode_uses_rotation_for_orthogonal_matrix() {
    let identity = MatrixCoefficients {
        m00: 1000,
        m01: 0,
        m10: 0,
        m11: 1000,
    };
    let mut transform = default_transform();
    assert_eq!(transform.apply(1000, 0, identity), (1000, 0));
    assert_eq!(transform.active_mode(), TransformMode::Rotation);
}

#[test]
fn rebuilds_cached_transform_when_matrix_changes() {
    let identity = MatrixCoefficients {
        m00: 1000,
        m01: 0,
        m10: 0,
        m11: 1000,
    };
    let quarter_turn = MatrixCoefficients {
        m00: 0,
        m01: -1000,
        m10: 1000,
        m11: 0,
    };

    for mode in [
        TransformMode::DirectionLut,
        TransformMode::Rotation,
        TransformMode::Automatic,
    ] {
        let mut transform = TrackballTransform::with_mode(mode);
        assert_eq!(transform.apply(1000, 0, identity), (1000, 0));
        assert_eq!(transform.apply(1000, 0, quarter_turn), (0, 1000));
    }
}

#[test]
fn clamps_to_i16() {
    let mut transform = default_transform();
    let (x, y) = transform.apply(i16::MIN, i16::MAX, MatrixCoefficients::default());
    assert!(x >= i16::MIN);
    assert!(y >= i16::MIN);
}

#[test]
fn zero_motion_leaves_mode_uncached() {
    let mut transform = default_transform();
    assert_eq!(transform.apply(0, 0, MatrixCoefficients::default()), (0, 0));
    assert_eq!(transform.active_mode(), TransformMode::Automatic);
}

#[test]
fn identity_lut_keeps_axis_motion() {
    let identity = MatrixCoefficients {
        m00: 1000,
        m01: 0,
        m10: 0,
        m11: 1000,
    };
    let mut transform = TrackballTransform::with_mode(TransformMode::DirectionLut);
    assert_eq!(transform.apply(0, -1000, identity), (0, -1000));
    assert_eq!(transform.apply(-1000, 0, identity), (-1000, 0));
}
