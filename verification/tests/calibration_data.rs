use rmk_config_reel::calibration_data::{
    checksum, decode_blob, encode_blob, Calibration, MatrixCoefficients,
};

#[test]
fn legacy_migrates_without_changing_motion() {
    let blob = [
        0x52, 0x4c, 0x43, 0x31, 1, 0, 0xe8, 3, 0xf7, 0xfe, 0xff, 0xff, 0x76, 4, 0, 0, 0xc1, 0xfc,
        0xff, 0xff, 0x32, 2, 0, 0, 0x8d, 0x69, 0x15, 0x6a,
    ];
    assert_eq!(decode_blob(&blob), Some(Calibration::default()));
}

#[test]
fn asymmetric_round_trip_and_corruption() {
    let config = Calibration {
        gains: [500, 2000, 1237, 825],
        sensitivity: 135,
        ..Calibration::default()
    };
    let mut blob = encode_blob(config);
    assert_eq!(
        blob,
        [
            82, 76, 67, 49, 2, 135, 232, 3, 247, 254, 118, 4, 193, 252, 50, 2, 244, 1, 208, 7, 213,
            4, 57, 3, 188, 104, 215, 146
        ]
    );
    assert_eq!(decode_blob(&blob), Some(config));
    blob[16] ^= 1;
    assert_eq!(decode_blob(&blob), None);
}

#[test]
fn rejects_valid_checksum_but_unsafe_values() {
    for config in [
        Calibration {
            gains: [0; 4],
            ..Calibration::default()
        },
        Calibration {
            sensitivity: 0,
            ..Calibration::default()
        },
        Calibration {
            matrix: MatrixCoefficients {
                m00: 0,
                m01: 0,
                m10: 0,
                m11: 0,
            },
            ..Calibration::default()
        },
    ] {
        assert_eq!(decode_blob(&encode_blob(config)), None);
    }
}

#[test]
fn checksum_is_fnv1a() {
    assert_eq!(checksum(&[]), 0x811c_9dc5);
    assert_eq!(checksum(b"a"), 0xe40c_292c);
    assert_eq!(checksum(b"foobar"), 0xbf9c_f968);
}

#[test]
fn from_matrix_keeps_default_gains() {
    let matrix = MatrixCoefficients { m00: 1000, m01: 0, m10: 0, m11: 1000 };
    let config = Calibration::from_matrix(matrix);
    assert_eq!(config.matrix, matrix);
    assert_eq!(config.gains, [1000; 4]);
    assert_eq!(config.sensitivity, 100);
}

#[test]
fn unknown_version_and_bad_magic_are_rejected() {
    let mut blob = encode_blob(Calibration::default());
    blob[0] = b'X';
    assert_eq!(decode_blob(&blob), None);
    let mut blob = encode_blob(Calibration::default());
    blob[4] = 3;
    assert_eq!(decode_blob(&blob), None);
}

#[test]
fn matrix_safety_bounds() {
    assert!(MatrixCoefficients::default().is_safe());
    assert!(!MatrixCoefficients { m00: 16_001, m01: 0, m10: 0, m11: 1000 }.is_safe());
    // Determinant 0.0099 is near-singular.
    assert!(!MatrixCoefficients { m00: 99, m01: 0, m10: 0, m11: 100 }.is_safe());
    assert!(MatrixCoefficients { m00: 100, m01: 0, m10: 0, m11: 100 }.is_safe());
}
