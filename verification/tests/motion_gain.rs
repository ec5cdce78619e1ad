use rmk_config_reel::motion_gain::MotionGain;

#[test]
fn applies_one_and_a_half_gain_with_remainders() {
    let mut gain = MotionGain::with_gain(384);
    let mut total = 0_i32;
    for _ in 0..256 {
        total += i32::from(gain.apply(1, 0).0);
    }
    assert!((383..=385).contains(&total));
}

#[test]
fn default_gain_is_half() {
    let mut gain = MotionGain::new();
    assert_eq!(gain.apply(12, -7), (6, -3));
}

#[test]
fn default_gain_retains_half_count_motion() {
    let mut gain = MotionGain::new();
    assert_eq!(gain.apply(1, 0), (0, 0));
    assert_eq!(gain.apply(1, 0), (1, 0));
}

#[test]
fn calibrated_cardinals_and_diagonal() {
    for ((x, y), expected) in [
        ((100, 0), (50, 0)),
        ((-100, 0), (-25, 0)),
        ((0, 80), (0, 50)),
        ((0, -100), (0, -100)),
        ((100, 100), (56, 56)),
    ] {
        let mut gain = MotionGain::new();
        assert_eq!(
            gain.apply_calibrated(x, y, [1000, 500, 1250, 2000], 100),
            expected
        );
    }
}

#[test]
fn micro_motion_and_config_change() {
    let mut gain = MotionGain::new();
    let mut sum = 0;
    for _ in 0..1000 {
        sum += i32::from(gain.apply_calibrated(0, 1, [1000, 1000, 1250, 1000], 100).1);
    }
    assert_eq!(sum, 625);
    gain.apply_calibrated(1, 0, [1000; 4], 100);
    assert_eq!(gain.apply_calibrated(1, 0, [500; 4], 100), (0, 0));
}

#[test]
fn extreme_input_is_bounded() {
    let mut gain = MotionGain::new();
    assert_eq!(
        gain.apply_calibrated(i16::MIN, i16::MAX, [2000; 4], 150),
        (i16::MIN, i16::MAX)
    );
    assert_eq!(gain.apply_calibrated(0, 0, [2000; 4], 150), (0, 0));
}

#[test]
fn matches_browser_formula_in_all_quadrants() {
    let gains = [500u16, 2000, 1237, 825];
    for x in [-1000i16, -37, -1, 0, 1, 37, 1000] {
        for y in [-1000i16, -37, -1, 0, 1, 37, 1000] {
            if x == 0 && y == 0 {
                continue;
            }
            let (u, v) = MotionGain::new().apply_calibrated(x, y, gains, 135);
            let a = f64::from(x);
            let b = f64::from(y);
            let scalar = (a * a * f64::from(gains[usize::from(x < 0)])
                + b * b * f64::from(gains[2 + usize::from(y < 0)]))
                / (a * a + b * b)
                / 1000.0
                * 1.35
                * 0.5;
            assert!((f64::from(u) - a * scalar).abs() < 1.001);
            assert!((f64::from(v) - b * scalar).abs() < 1.001);
        }
    }
}

#[test]
fn unity_gain_of_256_is_identity() {
    let mut gain = MotionGain::with_gain(256);
    assert_eq!(gain.apply(123, -45), (123, -45));
    assert_eq!(MotionGain::default().apply(100, 100), (0, 0));
}
