//! Independent sensitivity control with per-direction gains.
//!
//! The default is half gain: the 1600-CPI sensor setting is paired with half gain to retain
//! sub-count motion while keeping the overall sensitivity near the previous 800-CPI baseline.
use vstd::prelude::*;
use crate::fixed_math::{abs, clamp_i16_spec, tdiv, clamp_i16};
use crate::trackball_transform::lemma_tdiv_bounds;

verus! {

pub const GAIN_SCALE: i32 = 256;

pub const TRACKBALL_GAIN_NUMERATOR: i32 = 128;

/// Fixed-point scale of the direction-weighted gain.
pub const Q: i64 = 65536;

/// `Q · 1000 · 100 · GAIN_SCALE`: gains are in thousandths, the sensitivity in percent.
pub const DENOMINATOR: i64 = 1_677_721_600_000;

/// The gain state as plain numbers.
pub struct GainState {
    pub numerator: int,
    pub remainder_x: int,
    pub remainder_y: int,
    /// The last gains (right, left, down, up, in thousandths) and sensitivity (percent).
    pub calibration: Option<(Seq<u16>, int)>,
}

/// The gain for the horizontal direction of `x`: right for `x >= 0`, left otherwise.
pub open spec fn horizontal_gain(gains: Seq<u16>, x: int) -> int {
    if x < 0 { gains[1] as int } else { gains[0] as int }
}

/// The gain for the vertical direction of `y`: down for `y >= 0`, up otherwise.
pub open spec fn vertical_gain(gains: Seq<u16>, y: int) -> int {
    if y < 0 { gains[3] as int } else { gains[2] as int }
}

/// The direction gain of `(x, y)` in thousandths times `Q`: the per-axis gains
/// interpolated by the squared direction components (`x² / |v|²` and `y² / |v|²`), truncated.
pub open spec fn direction_gain(x: int, y: int, gains: Seq<u16>) -> int {
    (x * x * horizontal_gain(gains, x) + y * y * vertical_gain(gains, y)) * Q / (x * x + y * y)
}

/// The combined scale: direction gain, sensitivity and the baseline numerator.
pub open spec fn combined_scale(numerator: int, x: int, y: int, gains: Seq<u16>, sensitivity: int) -> int {
    direction_gain(x, y, gains) * sensitivity * numerator
}

/// The remainders an apply starts from: kept for the same calibration, dropped for a new one.
pub open spec fn effective_remainder_x(s: GainState, gains: Seq<u16>, sensitivity: int) -> int {
    if s.calibration == Some((gains, sensitivity)) { s.remainder_x } else { 0 }
}

pub open spec fn effective_remainder_y(s: GainState, gains: Seq<u16>, sensitivity: int) -> int {
    if s.calibration == Some((gains, sensitivity)) { s.remainder_y } else { 0 }
}

/// The `i64` arithmetic of one apply stays in range.
pub open spec fn gain_fits(s: GainState, x: int, y: int, gains: Seq<u16>, sensitivity: int) -> bool {
    let scale = combined_scale(s.numerator, x, y, gains, sensitivity);
    (x == 0 && y == 0) || {
        &&& abs(scale) <= i64::MAX
        &&& abs(x * scale) <= i64::MAX
        &&& abs(y * scale) <= i64::MAX
        &&& abs(x * scale + effective_remainder_x(s, gains, sensitivity)) <= i64::MAX
        &&& abs(y * scale + effective_remainder_y(s, gains, sensitivity)) <= i64::MAX
    }
}

/// One gain step: the next state and the output.
pub open spec fn gain_step(s: GainState, x: int, y: int, gains: Seq<u16>, sensitivity: int) -> (GainState, (int, int)) {
    let rx = effective_remainder_x(s, gains, sensitivity);
    let ry = effective_remainder_y(s, gains, sensitivity);
    let calibration = Some((gains, sensitivity));
    if x == 0 && y == 0 {
        (GainState { numerator: s.numerator, remainder_x: rx, remainder_y: ry, calibration }, (0, 0))
    } else {
        let scale = combined_scale(s.numerator, x, y, gains, sensitivity);
        let nx = x * scale + rx;
        let ny = y * scale + ry;
        let ox = tdiv(nx, DENOMINATOR as int);
        let oy = tdiv(ny, DENOMINATOR as int);
        (
            GainState {
                numerator: s.numerator,
                remainder_x: nx - ox * DENOMINATOR,
                remainder_y: ny - oy * DENOMINATOR,
                calibration,
            },
            (clamp_i16_spec(ox), clamp_i16_spec(oy)),
        )
    }
}

/// The states the gain can be in: sub-count remainders.
pub open spec fn gain_state_wf(s: GainState) -> bool {
    &&& abs(s.remainder_x) < DENOMINATOR
    &&& abs(s.remainder_y) < DENOMINATOR
    &&& s.calibration matches Some((g, _)) ==> g.len() == 4
}

pub struct MotionGain {
    numerator: i32,
    x_remainder: i64,
    y_remainder: i64,
    calibration: Option<([u16; 4], u8)>,
}

impl View for MotionGain {
    type V = GainState;

    closed spec fn view(&self) -> GainState {
        GainState {
            numerator: self.numerator as int,
            remainder_x: self.x_remainder as int,
            remainder_y: self.y_remainder as int,
            calibration: match self.calibration {
                Some((g, s)) => Some((g@, s as int)),
                None => None,
            },
        }
    }
}

impl Default for MotionGain {
    /// A gain of zero, with no calibration seen yet.
    fn default() -> (r: Self)
        ensures
            r@ == (GainState { numerator: 0, remainder_x: 0, remainder_y: 0, calibration: None }),
    {
        Self::with_gain(0)
    }
}

impl MotionGain {
    /// The default half gain.
    pub fn new() -> (r: Self)
        ensures
            r@ == (GainState { numerator: TRACKBALL_GAIN_NUMERATOR as int, remainder_x: 0, remainder_y: 0, calibration: None }),
    {
        Self::with_gain(TRACKBALL_GAIN_NUMERATOR)
    }

    /// A gain of `numerator / GAIN_SCALE`.
    pub fn with_gain(numerator: i32) -> (r: Self)
        ensures
            r@ == (GainState { numerator: numerator as int, remainder_x: 0, remainder_y: 0, calibration: None }),
    {
        Self { numerator, x_remainder: 0, y_remainder: 0, calibration: None }
    }

    /// Applies the gain with unity direction gains (1000 each) and 100 % sensitivity.
    pub fn apply(&mut self, x: i16, y: i16) -> (r: (i16, i16))
        requires
            gain_state_wf(old(self)@),
            gain_fits(old(self)@, x as int, y as int, seq![1000u16, 1000u16, 1000u16, 1000u16], 100),
        ensures
            gain_state_wf(final(self)@),
            final(self)@ == gain_step(old(self)@, x as int, y as int, seq![1000u16, 1000u16, 1000u16, 1000u16], 100).0,
            (r.0 as int, r.1 as int) == gain_step(old(self)@, x as int, y as int, seq![1000u16, 1000u16, 1000u16, 1000u16], 100).1,
    {
        let gains = [1000u16; 4];
        proof {
            assert(gains@ =~= seq![1000u16, 1000u16, 1000u16, 1000u16]);
        }
        self.apply_calibrated(x, y, gains, 100)
    }

    /// Applies per-direction gains (right, left, down, up; thousandths) and a sensitivity (percent),
    /// quantizing once and retaining the sub-count part of each axis for the next call.
    /// A change of gains or sensitivity drops the retained remainders.
    pub fn apply_calibrated(&mut self, x: i16, y: i16, gains: [u16; 4], sensitivity: u8) -> (r: (i16, i16))
        requires
            gain_state_wf(old(self)@),
            gain_fits(old(self)@, x as int, y as int, gains@, sensitivity as int),
        ensures
            gain_state_wf(final(self)@),
            final(self)@ == gain_step(old(self)@, x as int, y as int, gains@, sensitivity as int).0,
            (r.0 as int, r.1 as int) == gain_step(old(self)@, x as int, y as int, gains@, sensitivity as int).1,
    {
        let same = match self.calibration {
            Some((g, s)) => g[0] == gains[0] && g[1] == gains[1] && g[2] == gains[2] && g[3] == gains[3]
                && s == sensitivity,
            None => false,
        };
        proof {
            if let Some((g, s)) = self.calibration {
                if same {
                    assert(g@ =~= gains@);
                } else if s == sensitivity {
                    assert(g@ != gains@) by {
                        if g@ == gains@ {
                            assert(g@[0] == gains@[0] && g@[1] == gains@[1] && g@[2] == gains@[2] && g@[3] == gains@[3]);
                        }
                    }
                }
            }
        }
        if !same {
            self.x_remainder = 0;
            self.y_remainder = 0;
            self.calibration = Some((gains, sensitivity));
        }
        let x = x as i64;
        let y = y as i64;
        proof {
            assert(0 <= x * x <= 0x4000_0000) by (nonlinear_arith) requires -32768 <= x <= 32767;
            assert(0 <= y * y <= 0x4000_0000) by (nonlinear_arith) requires -32768 <= y <= 32767;
        }
        let length_squared = x * x + y * y;
        proof {
            assert(length_squared == 0 ==> x == 0 && y == 0) by (nonlinear_arith)
                requires length_squared == x * x + y * y;
            assert(!(x == 0 && y == 0) ==> length_squared > 0) by (nonlinear_arith)
                requires length_squared == x * x + y * y;
        }
        if length_squared == 0 {
            return (0, 0);
        }
        let horizontal = if x < 0 { gains[1] } else { gains[0] } as i64;
        let vertical = if y < 0 { gains[3] } else { gains[2] } as i64;
        proof {
            assert(0 <= x * x * horizontal <= 0x4000_0000 * 65535) by (nonlinear_arith)
                requires 0 <= x * x <= 0x4000_0000, 0 <= horizontal <= 65535;
            assert(0 <= y * y * vertical <= 0x4000_0000 * 65535) by (nonlinear_arith)
                requires 0 <= y * y <= 0x4000_0000, 0 <= vertical <= 65535;
            assert(0 <= (x * x * horizontal + y * y * vertical) * Q <= 0x8000_0000 * 65535 * 65536) by (nonlinear_arith)
                requires 0 <= x * x * horizontal + y * y * vertical <= 0x8000_0000 * 65535;
        }
        let gain = (x * x * horizontal + y * y * vertical) * Q / length_squared;
        proof {
            lemma_direction_gain_bound(x as int, y as int, horizontal as int, vertical as int);
            assert(gain == direction_gain(x as int, y as int, gains@));
            assert(0 <= gain * sensitivity <= 65535 * 65536 * 255) by (nonlinear_arith)
                requires 0 <= gain <= 65535 * 65536, 0 <= sensitivity <= 255;
        }
        let scale = gain * sensitivity as i64 * self.numerator as i64;
        let x_numerator = x * scale + self.x_remainder;
        let y_numerator = y * scale + self.y_remainder;
        let x = x_numerator / DENOMINATOR;
        let y = y_numerator / DENOMINATOR;

        self.x_remainder = x_numerator - x * DENOMINATOR;
        self.y_remainder = y_numerator - y * DENOMINATOR;
        proof {
            lemma_tdiv_bounds(x_numerator as int, DENOMINATOR as int);
            lemma_tdiv_bounds(y_numerator as int, DENOMINATOR as int);
        }

        (clamp_i16(x), clamp_i16(y))
    }
}

/// The direction gain is a weighted mean of the two axis gains, so it lies between 0 and the larger times `Q`.
proof fn lemma_direction_gain_bound(x: int, y: int, h: int, v: int)
    requires
        x * x + y * y > 0,
        0 <= h <= 65535,
        0 <= v <= 65535,
    ensures
        0 <= (x * x * h + y * y * v) * Q / (x * x + y * y) <= 65535 * 65536,
{
    let l = x * x + y * y;
    let n = (x * x * h + y * y * v) * Q;
    assert(0 <= x * x && 0 <= y * y) by (nonlinear_arith);
    assert(0 <= n <= l * 65535 * 65536) by (nonlinear_arith)
        requires n == (x * x * h + y * y * v) * Q, 0 <= x * x, 0 <= y * y, 0 <= h <= 65535, 0 <= v <= 65535, l == x * x + y * y;
    vstd::arithmetic::div_mod::lemma_div_is_ordered(n, l * (65535int * 65536), l);
    vstd::arithmetic::div_mod::lemma_div_multiples_vanish(65535int * 65536, l);
    vstd::arithmetic::div_mod::lemma_div_pos_is_pos(n, l);
}

/// With equal gains in every direction the direction gain is exactly that gain (times `Q`):
/// the gain does not depend on the direction of motion.
pub proof fn law_uniform_gains_are_isotropic(x: int, y: int, gains: Seq<u16>)
    requires
        gains.len() == 4,
        gains[0] == gains[1],
        gains[1] == gains[2],
        gains[2] == gains[3],
        !(x == 0 && y == 0),
    ensures
        direction_gain(x, y, gains) == gains[0] as int * Q,
{
    let g = gains[0] as int;
    let l = x * x + y * y;
    assert(l > 0) by (nonlinear_arith) requires !(x == 0 && y == 0), l == x * x + y * y;
    assert((x * x * g + y * y * g) * Q == (g * Q) * l) by (nonlinear_arith) requires l == x * x + y * y;
    vstd::arithmetic::div_mod::lemma_div_multiples_vanish(g * Q, l);
}

/// Sub-count motion is retained, not lost: output · DENOMINATOR + new remainder equals the
/// scaled input plus the remainder the step started from.
pub proof fn law_sub_count_motion_is_retained(s: GainState, x: int, y: int, gains: Seq<u16>, sensitivity: int)
    requires
        !(x == 0 && y == 0),
    ensures
        ({
            let (t, _) = gain_step(s, x, y, gains, sensitivity);
            let scale = combined_scale(s.numerator, x, y, gains, sensitivity);
            let rx = effective_remainder_x(s, gains, sensitivity);
            let ry = effective_remainder_y(s, gains, sensitivity);
            &&& tdiv(x * scale + rx, DENOMINATOR as int) * DENOMINATOR + t.remainder_x == x * scale + rx
            &&& tdiv(y * scale + ry, DENOMINATOR as int) * DENOMINATOR + t.remainder_y == y * scale + ry
        }),
{
}

/// A new gain or sensitivity drops the carried remainders before the step.
pub proof fn law_calibration_change_drops_remainders(s: GainState, gains: Seq<u16>, sensitivity: int)
    requires
        s.calibration != Some((gains, sensitivity)),
    ensures
        effective_remainder_x(s, gains, sensitivity) == 0,
        effective_remainder_y(s, gains, sensitivity) == 0,
        gain_step(s, 0, 0, gains, sensitivity).0.remainder_x == 0,
        gain_step(s, 0, 0, gains, sensitivity).0.remainder_y == 0,
{
}

/// With unity direction gains and 100 % sensitivity, a gain of at most one fits its `i64`
/// arithmetic for every `i16` motion.
pub proof fn lemma_unity_gain_fits(s: GainState, x: int, y: int)
    requires
        gain_state_wf(s),
        0 <= s.numerator <= GAIN_SCALE,
        -32768 <= x <= 32767,
        -32768 <= y <= 32767,
    ensures
        gain_fits(s, x, y, seq![1000u16, 1000u16, 1000u16, 1000u16], 100),
{
    let gains = seq![1000u16, 1000u16, 1000u16, 1000u16];
    if !(x == 0 && y == 0) {
        law_uniform_gains_are_isotropic(x, y, gains);
        let scale = combined_scale(s.numerator, x, y, gains, 100);
        assert(scale == 1000 * Q * 100 * s.numerator);
        assert(0 <= scale <= 1_677_721_600_000) by (nonlinear_arith)
            requires
                scale == 1000 * Q * 100 * s.numerator,
                0 <= s.numerator <= 256;
        assert(abs(x * scale) <= 32768 * 1_677_721_600_000) by (nonlinear_arith)
            requires
                0 <= scale <= 1_677_721_600_000,
                -32768 <= x <= 32767;
        assert(abs(y * scale) <= 32768 * 1_677_721_600_000) by (nonlinear_arith)
            requires
                0 <= scale <= 1_677_721_600_000,
                -32768 <= y <= 32767;
    }
}

} // verus!
