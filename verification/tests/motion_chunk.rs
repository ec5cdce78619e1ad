use rmk_config_reel::motion_chunk::{take_i16_chunk, take_proportional_i8_chunk};

fn split(x: i32, y: i32) -> Vec<(i8, i8)> {
    let mut remaining_x = x;
    let mut remaining_y = y;
    let mut chunks = Vec::new();

    while remaining_x != 0 || remaining_y != 0 {
        chunks.push(take_proportional_i8_chunk(&mut remaining_x, &mut remaining_y));
    }

    chunks
}

#[test]
fn leaves_small_motion_in_one_report() {
    assert_eq!(split(-15, -47), vec![(-15, -47)]);
}

#[test]
fn preserves_fast_vector_direction() {
    assert_eq!(split(-58, -182), vec![(-29, -91), (-29, -91)]);
}

#[test]
fn preserves_total_and_axis_bounds() {
    for (x, y) in [
        (-151, -476),
        (476, -151),
        (-476, 151),
        (151, 476),
        (i32::from(i16::MIN), i32::from(i16::MAX)),
    ] {
        let chunks = split(x, y);
        let total_x: i32 = chunks.iter().map(|chunk| i32::from(chunk.0)).sum();
        let total_y: i32 = chunks.iter().map(|chunk| i32::from(chunk.1)).sum();

        assert_eq!((total_x, total_y), (x, y));
        assert!(chunks.iter().all(|(chunk_x, chunk_y)| {
            chunk_x.unsigned_abs() <= i8::MAX as u8 && chunk_y.unsigned_abs() <= i8::MAX as u8
        }));
    }
}

#[test]
fn extreme_values_split_and_terminate() {
    let chunks = split(i32::MIN, i32::MAX);
    let total_x: i64 = chunks.iter().map(|chunk| i64::from(chunk.0)).sum();
    let total_y: i64 = chunks.iter().map(|chunk| i64::from(chunk.1)).sum();
    assert_eq!((total_x, total_y), (i64::from(i32::MIN), i64::from(i32::MAX)));
}

#[test]
fn rounding_is_half_away_from_zero() {
    // 300 needs three reports; 100 / 3 rounds to 33, 50 / 3 to 17, -50 / 3 to -17.
    let (mut x, mut y) = (300, 50);
    assert_eq!(take_proportional_i8_chunk(&mut x, &mut y), (100, 17));
    assert_eq!((x, y), (200, 33));
    let (mut x, mut y) = (-300, -50);
    assert_eq!(take_proportional_i8_chunk(&mut x, &mut y), (-100, -17));
    let (mut x, mut y) = (0, 0);
    assert_eq!(take_proportional_i8_chunk(&mut x, &mut y), (0, 0));
}

#[test]
fn i16_chunk_keeps_excess() {
    let mut value = 40_000;
    assert_eq!(take_i16_chunk(&mut value), i16::MAX);
    assert_eq!(value, 40_000 - 32_767);
    let mut value = -40_000;
    assert_eq!(take_i16_chunk(&mut value), i16::MIN);
    assert_eq!(value, -40_000 + 32_768);
    let mut value = 12;
    assert_eq!(take_i16_chunk(&mut value), 12);
    assert_eq!(value, 0);
}
