//! Adaptive low-pass filter on the direction of small motion.
//!
//! The heading follows the input direction with a weight that grows with the
//! turn angle (one quarter under 5°, up to immediate for 30° and more); the
//! input length is kept, and the sub-count part of each axis is retained.
use vstd::prelude::*;
use crate::fixed_math::{
    abs, clamp_i16, clamp_i16_spec, integer_sqrt, is_isqrt, isqrt, lemma_isqrt_exists, lemma_isqrt_is,
    lemma_isqrt_monotone, tdiv,
};
use crate::trackball_transform::lemma_tdiv_bounds;

verus! {

pub const DIRECTION_SCALE: i64 = 16384;
pub const DIRECTION_SCALE_SQUARED: i64 = 268435456;
pub const COS_5_DEG: i64 = 16_322;
pub const COS_15_DEG: i64 = 15_826;
pub const COS_30_DEG: i64 = 14_189;

/// The filter's state as plain numbers.
pub struct HeadingState {
    pub heading_x: int,
    pub heading_y: int,
    pub initialized: bool,
    pub remainder_x: int,
    pub remainder_y: int,
}

/// The state of a new or reset filter.
pub open spec fn fresh_heading_state() -> HeadingState {
    HeadingState { heading_x: 0, heading_y: 0, initialized: false, remainder_x: 0, remainder_y: 0 }
}

/// `|(x, y)|` in units of `1 / DIRECTION_SCALE`.
pub open spec fn magnitude_q14(x: int, y: int) -> int {
    isqrt((x * x + y * y) * DIRECTION_SCALE_SQUARED)
}

/// One component of the input direction, scaled to `DIRECTION_SCALE`.
pub open spec fn input_heading(v: int, magnitude: int) -> int {
    tdiv(v * DIRECTION_SCALE_SQUARED, magnitude)
}

/// How many quarters of the new direction enter the heading, by the cosine (dot product) of the turn.
pub open spec fn alpha_quarters(dot: int) -> int {
    if dot >= COS_5_DEG * DIRECTION_SCALE {
        1
    } else if dot >= COS_15_DEG * DIRECTION_SCALE {
        2
    } else if dot >= COS_30_DEG * DIRECTION_SCALE {
        3
    } else {
        4
    }
}

/// One component of the blend of the old heading and the input direction.
pub open spec fn blend(heading: int, input: int, alpha: int) -> int {
    tdiv(heading * (4 - alpha) + input * alpha, 4)
}

/// One component of a vector rescaled to length `DIRECTION_SCALE`.
pub open spec fn renormalized(component: int, length: int) -> int {
    tdiv(component * DIRECTION_SCALE, length)
}

/// One filter step: the next state and the output (before clamping to `i16`).
pub open spec fn heading_step(s: HeadingState, x: int, y: int) -> (HeadingState, (int, int)) {
    if x == 0 && y == 0 {
        (s, (0, 0))
    } else {
        let magnitude = magnitude_q14(x, y);
        let ix = input_heading(x, magnitude);
        let iy = input_heading(y, magnitude);
        let restart = HeadingState { heading_x: ix, heading_y: iy, initialized: true, remainder_x: 0, remainder_y: 0 };
        let alpha = alpha_quarters(s.heading_x * ix + s.heading_y * iy);
        if !s.initialized || alpha == 4 {
            (restart, (x, y))
        } else {
            let bx = blend(s.heading_x, ix, alpha);
            let by = blend(s.heading_y, iy, alpha);
            let length = isqrt(bx * bx + by * by);
            let hx = renormalized(bx, length);
            let hy = renormalized(by, length);
            let nx = magnitude * hx + s.remainder_x;
            let ny = magnitude * hy + s.remainder_y;
            let ox = tdiv(nx, DIRECTION_SCALE_SQUARED as int);
            let oy = tdiv(ny, DIRECTION_SCALE_SQUARED as int);
            (
                HeadingState {
                    heading_x: hx,
                    heading_y: hy,
                    initialized: true,
                    remainder_x: nx - ox * DIRECTION_SCALE_SQUARED,
                    remainder_y: ny - oy * DIRECTION_SCALE_SQUARED,
                },
                (clamp_i16_spec(ox), clamp_i16_spec(oy)),
            )
        }
    }
}

pub struct AdaptiveHeadingFilter {
    heading_x: i32,
    heading_y: i32,
    initialized: bool,
    output_x_remainder: i64,
    output_y_remainder: i64,
}

impl View for AdaptiveHeadingFilter {
    type V = HeadingState;

    closed spec fn view(&self) -> HeadingState {
        HeadingState {
            heading_x: self.heading_x as int,
            heading_y: self.heading_y as int,
            initialized: self.initialized,
            remainder_x: self.output_x_remainder as int,
            remainder_y: self.output_y_remainder as int,
        }
    }
}

/// The states the filter can be in: unit-bounded heading and sub-count remainders.
pub open spec fn heading_state_wf(s: HeadingState) -> bool {
    &&& abs(s.heading_x) <= DIRECTION_SCALE
    &&& abs(s.heading_y) <= DIRECTION_SCALE
    &&& abs(s.remainder_x) < DIRECTION_SCALE_SQUARED
    &&& abs(s.remainder_y) < DIRECTION_SCALE_SQUARED
}

impl Default for AdaptiveHeadingFilter {
    fn default() -> (r: Self)
        ensures
            r@ == fresh_heading_state(),
    {
        Self::new()
    }
}

impl AdaptiveHeadingFilter {
    pub fn new() -> (r: Self)
        ensures
            r@ == fresh_heading_state(),
    {
        Self { heading_x: 0, heading_y: 0, initialized: false, output_x_remainder: 0, output_y_remainder: 0 }
    }

    /// Filters one motion vector.
    pub fn apply(&mut self, x: i16, y: i16) -> (r: (i16, i16))
        requires
            heading_state_wf(old(self)@),
        ensures
            heading_state_wf(final(self)@),
            final(self)@ == heading_step(old(self)@, x as int, y as int).0,
            r.0 as int == heading_step(old(self)@, x as int, y as int).1.0,
            r.1 as int == heading_step(old(self)@, x as int, y as int).1.1,
    {
        if x == 0 && y == 0 {
            return (0, 0);
        }

        let x_i64 = x as i64;
        let y_i64 = y as i64;
        proof {
            assert(0 <= x_i64 * x_i64 <= 0x4000_0000) by (nonlinear_arith)
                requires -32768 <= x_i64 <= 32767;
            assert(0 <= y_i64 * y_i64 <= 0x4000_0000) by (nonlinear_arith)
                requires -32768 <= y_i64 <= 32767;
        }
        let squared = x_i64 * x_i64 + y_i64 * y_i64;
        let magnitude_q14 = integer_sqrt((squared * DIRECTION_SCALE_SQUARED) as u64) as i64;
        proof {
            lemma_magnitude_bounds(x as int, y as int);
        }
        let input_heading_x = (x_i64 * DIRECTION_SCALE_SQUARED / magnitude_q14) as i32;
        let input_heading_y = (y_i64 * DIRECTION_SCALE_SQUARED / magnitude_q14) as i32;
        proof {
            lemma_input_heading_bounded(x as int, y as int);
            lemma_input_heading_bounded(y as int, x as int);
            assert(x as int * x as int + y as int * y as int == y as int * y as int + x as int * x as int);
            assert(input_heading_x == input_heading(x as int, magnitude_q14 as int));
            assert(input_heading_y == input_heading(y as int, magnitude_q14 as int));
        }

        if !self.initialized {
            self.set_heading(input_heading_x, input_heading_y);
            return (x, y);
        }

        proof {
            assert(abs(self.heading_x * input_heading_x) <= 16384 * 16384) by (nonlinear_arith)
                requires abs(self.heading_x as int) <= 16384, abs(input_heading_x as int) <= 16384;
            assert(abs(self.heading_y * input_heading_y) <= 16384 * 16384) by (nonlinear_arith)
                requires abs(self.heading_y as int) <= 16384, abs(input_heading_y as int) <= 16384;
        }
        let dot = self.heading_x as i64 * input_heading_x as i64 + self.heading_y as i64 * input_heading_y as i64;
        let alpha_quarters: i32 = if dot >= COS_5_DEG * DIRECTION_SCALE {
            1
        } else if dot >= COS_15_DEG * DIRECTION_SCALE {
            2
        } else if dot >= COS_30_DEG * DIRECTION_SCALE {
            3
        } else {
            4
        };

        if alpha_quarters == 4 {
            self.set_heading(input_heading_x, input_heading_y);
            return (x, y);
        }

        let retained_quarters = 4 - alpha_quarters;
        proof {
            assert(abs(self.heading_x * retained_quarters) <= 16384 * 3) by (nonlinear_arith)
                requires abs(self.heading_x as int) <= 16384, 1 <= retained_quarters <= 3;
            assert(abs(self.heading_y * retained_quarters) <= 16384 * 3) by (nonlinear_arith)
                requires abs(self.heading_y as int) <= 16384, 1 <= retained_quarters <= 3;
            assert(abs(input_heading_x * alpha_quarters) <= 16384 * 3) by (nonlinear_arith)
                requires abs(input_heading_x as int) <= 16384, 1 <= alpha_quarters <= 3;
            assert(abs(input_heading_y * alpha_quarters) <= 16384 * 3) by (nonlinear_arith)
                requires abs(input_heading_y as int) <= 16384, 1 <= alpha_quarters <= 3;
        }
        let blended_x = (self.heading_x * retained_quarters + input_heading_x * alpha_quarters) / 4;
        let blended_y = (self.heading_y * retained_quarters + input_heading_y * alpha_quarters) / 4;
        proof {
            lemma_tdiv_bounds((self.heading_x * retained_quarters + input_heading_x * alpha_quarters) as int, 4);
            lemma_tdiv_bounds((self.heading_y * retained_quarters + input_heading_y * alpha_quarters) as int, 4);
            assert(blended_x == blend(self.heading_x as int, input_heading_x as int, alpha_quarters as int));
            assert(blended_y == blend(self.heading_y as int, input_heading_y as int, alpha_quarters as int));
            lemma_blend_not_zero(
                self.heading_x as int, self.heading_y as int, input_heading_x as int, input_heading_y as int,
                alpha_quarters as int,
            );
            assert(0 <= blended_x as int * blended_x as int <= 16384 * 16384) by (nonlinear_arith)
                requires abs(blended_x as int) <= 16384;
            assert(0 <= blended_y as int * blended_y as int <= 16384 * 16384) by (nonlinear_arith)
                requires abs(blended_y as int) <= 16384;
        }
        let blended_length = integer_sqrt(
            (blended_x as i64 * blended_x as i64 + blended_y as i64 * blended_y as i64) as u64,
        ) as i64;
        proof {
            let bx = blended_x as int;
            let by = blended_y as int;
            lemma_isqrt_exists(bx * bx + by * by);
            assert(bx * bx + by * by >= 1) by (nonlinear_arith)
                requires bx != 0 || by != 0;
            lemma_isqrt_monotone(1, bx * bx + by * by);
            lemma_isqrt_is(1, 1);
            lemma_component_over_length(bx, by, blended_length as int);
            assert(bx * bx + by * by == by * by + bx * bx);
            lemma_component_over_length(by, bx, blended_length as int);
            assert(abs(bx * DIRECTION_SCALE) <= 16384 * 16384) by (nonlinear_arith)
                requires abs(bx) <= 16384;
            assert(abs(by * DIRECTION_SCALE) <= 16384 * 16384) by (nonlinear_arith)
                requires abs(by) <= 16384;
        }

        self.heading_x = (blended_x as i64 * DIRECTION_SCALE / blended_length) as i32;
        self.heading_y = (blended_y as i64 * DIRECTION_SCALE / blended_length) as i32;

        proof {
            assert(abs(magnitude_q14 * self.heading_x) <= 0x8000_0000 * 16384) by (nonlinear_arith)
                requires 0 < magnitude_q14 <= 0x8000_0000, abs(self.heading_x as int) <= 16384;
            assert(abs(magnitude_q14 * self.heading_y) <= 0x8000_0000 * 16384) by (nonlinear_arith)
                requires 0 < magnitude_q14 <= 0x8000_0000, abs(self.heading_y as int) <= 16384;
        }
        let output_x_numerator = magnitude_q14 * self.heading_x as i64 + self.output_x_remainder;
        let output_y_numerator = magnitude_q14 * self.heading_y as i64 + self.output_y_remainder;
        let output_x = output_x_numerator / DIRECTION_SCALE_SQUARED;
        let output_y = output_y_numerator / DIRECTION_SCALE_SQUARED;

        self.output_x_remainder = output_x_numerator - output_x * DIRECTION_SCALE_SQUARED;
        self.output_y_remainder = output_y_numerator - output_y * DIRECTION_SCALE_SQUARED;
        proof {
            lemma_tdiv_bounds(output_x_numerator as int, DIRECTION_SCALE_SQUARED as int);
            lemma_tdiv_bounds(output_y_numerator as int, DIRECTION_SCALE_SQUARED as int);
        }

        (clamp_i16(output_x), clamp_i16(output_y))
    }

    /// Forgets the heading: the next vector passes through unchanged.
    pub fn reset_heading(&mut self)
        ensures
            final(self)@ == fresh_heading_state(),
    {
        self.heading_x = 0;
        self.heading_y = 0;
        self.initialized = false;
        self.output_x_remainder = 0;
        self.output_y_remainder = 0;
    }

    fn set_heading(&mut self, x: i32, y: i32)
        ensures
            final(self)@ == (HeadingState { heading_x: x as int, heading_y: y as int, initialized: true, remainder_x: 0, remainder_y: 0 }),
    {
        self.heading_x = x;
        self.heading_y = y;
        self.initialized = true;
        self.output_x_remainder = 0;
        self.output_y_remainder = 0;
    }
}

/// `DIRECTION_SCALE · |(x, y)| <= magnitude_q14 <` a bound that keeps the later products in range.
proof fn lemma_magnitude_bounds(x: int, y: int)
    requires
        -32768 <= x <= 32767,
        -32768 <= y <= 32767,
        !(x == 0 && y == 0),
    ensures
        DIRECTION_SCALE <= magnitude_q14(x, y) <= 0x8000_0000,
        abs(x) * DIRECTION_SCALE <= magnitude_q14(x, y),
        (x * x + y * y) * DIRECTION_SCALE_SQUARED <= u64::MAX,
{
    let v = (x * x + y * y) * DIRECTION_SCALE_SQUARED;
    assert(0 <= x * x <= 0x4000_0000 && 0 <= y * y <= 0x4000_0000) by (nonlinear_arith)
        requires -32768 <= x <= 32767, -32768 <= y <= 32767;
    assert(x * x + y * y >= 1) by (nonlinear_arith) requires !(x == 0 && y == 0);
    lemma_isqrt_exists(v);
    let m = isqrt(v);
    assert(abs(x) * abs(x) == x * x) by (nonlinear_arith);
    let ax = abs(x) * DIRECTION_SCALE;
    assert(ax * ax == x * x * DIRECTION_SCALE_SQUARED) by (nonlinear_arith)
        requires ax == abs(x) * DIRECTION_SCALE, abs(x) * abs(x) == x * x;
    assert(ax * ax <= v) by (nonlinear_arith)
        requires ax * ax == x * x * DIRECTION_SCALE_SQUARED, v == (x * x + y * y) * DIRECTION_SCALE_SQUARED, y * y >= 0;
    assert(ax >= 0);
    assert(ax * ax < (ax + 1) * (ax + 1)) by (nonlinear_arith) requires ax >= 0;
    lemma_isqrt_is(ax * ax, ax);
    lemma_isqrt_monotone(ax * ax, v);
    assert(DIRECTION_SCALE * DIRECTION_SCALE <= v) by (nonlinear_arith)
        requires x * x + y * y >= 1, v == (x * x + y * y) * DIRECTION_SCALE_SQUARED;
    lemma_isqrt_is(DIRECTION_SCALE * DIRECTION_SCALE, DIRECTION_SCALE as int);
    lemma_isqrt_monotone(DIRECTION_SCALE * DIRECTION_SCALE, v);
    assert(v < 0x8000_0000 * 0x8000_0000) by (nonlinear_arith)
        requires v == (x * x + y * y) * DIRECTION_SCALE_SQUARED, x * x <= 0x4000_0000, y * y <= 0x4000_0000;
    if m > 0x8000_0000 {
        assert(m * m > 0x8000_0000 * 0x8000_0000) by (nonlinear_arith) requires m > 0x8000_0000;
    }
}

/// Each input-direction component lies within `±DIRECTION_SCALE`.
proof fn lemma_input_heading_bounded(x: int, y: int)
    requires
        -32768 <= x <= 32767,
        -32768 <= y <= 32767,
        !(x == 0 && y == 0),
    ensures
        abs(input_heading(x, magnitude_q14(x, y))) <= DIRECTION_SCALE,
{
    lemma_magnitude_bounds(x, y);
    let m = magnitude_q14(x, y);
    let n = x * DIRECTION_SCALE_SQUARED;
    lemma_tdiv_bounds(n, m);
    assert(abs(n) <= m * DIRECTION_SCALE) by (nonlinear_arith)
        requires n == x * DIRECTION_SCALE_SQUARED, abs(x) * DIRECTION_SCALE <= m;
    if abs(tdiv(n, m)) > DIRECTION_SCALE {
        assert(abs(tdiv(n, m)) * m > DIRECTION_SCALE * m) by (nonlinear_arith)
            requires abs(tdiv(n, m)) > DIRECTION_SCALE, m > 0;
    }
}

/// With a turn under 30° the blended vector cannot vanish.
proof fn lemma_blend_not_zero(hx: int, hy: int, ix: int, iy: int, alpha: int)
    requires
        abs(hx) <= DIRECTION_SCALE,
        abs(hy) <= DIRECTION_SCALE,
        abs(ix) <= DIRECTION_SCALE,
        abs(iy) <= DIRECTION_SCALE,
        1 <= alpha <= 3,
        hx * ix + hy * iy >= COS_30_DEG * DIRECTION_SCALE,
    ensures
        blend(hx, ix, alpha) != 0 || blend(hy, iy, alpha) != 0,
        abs(blend(hx, ix, alpha)) <= DIRECTION_SCALE,
        abs(blend(hy, iy, alpha)) <= DIRECTION_SCALE,
{
    let cx = hx * (4 - alpha) + ix * alpha;
    let cy = hy * (4 - alpha) + iy * alpha;
    lemma_tdiv_bounds(cx, 4);
    lemma_tdiv_bounds(cy, 4);
    assert(abs(cx) <= 4 * DIRECTION_SCALE) by (nonlinear_arith)
        requires cx == hx * (4 - alpha) + ix * alpha, abs(hx) <= DIRECTION_SCALE, abs(ix) <= DIRECTION_SCALE, 1 <= alpha <= 3;
    assert(abs(cy) <= 4 * DIRECTION_SCALE) by (nonlinear_arith)
        requires cy == hy * (4 - alpha) + iy * alpha, abs(hy) <= DIRECTION_SCALE, abs(iy) <= DIRECTION_SCALE, 1 <= alpha <= 3;
    if blend(hx, ix, alpha) == 0 && blend(hy, iy, alpha) == 0 {
        assert(abs(cx) < 4 && abs(cy) < 4);
        let d = cx * ix + cy * iy;
        assert(d == (4 - alpha) * (hx * ix + hy * iy) + alpha * (ix * ix + iy * iy)) by (nonlinear_arith)
            requires cx == hx * (4 - alpha) + ix * alpha, cy == hy * (4 - alpha) + iy * alpha, d == cx * ix + cy * iy;
        assert(alpha * (ix * ix + iy * iy) >= 0) by (nonlinear_arith) requires alpha >= 1;
        assert((4 - alpha) * (hx * ix + hy * iy) >= COS_30_DEG * DIRECTION_SCALE) by (nonlinear_arith)
            requires 1 <= 4 - alpha, hx * ix + hy * iy >= COS_30_DEG * DIRECTION_SCALE;
        assert(abs(d) <= 6 * DIRECTION_SCALE) by (nonlinear_arith)
            requires d == cx * ix + cy * iy, abs(cx) < 4, abs(cy) < 4, abs(ix) <= DIRECTION_SCALE, abs(iy) <= DIRECTION_SCALE;
    }
}

/// For `length = isqrt(a² + b²) > 0`, `|a · S / length| <= S` and `|a| <= length`.
proof fn lemma_component_over_length(a: int, b: int, length: int)
    requires
        length > 0,
        is_isqrt(a * a + b * b, length),
    ensures
        abs(a) <= length,
        abs(renormalized(a, length)) <= DIRECTION_SCALE,
{
    assert(abs(a) <= length) by {
        assert(abs(a) * abs(a) == a * a) by (nonlinear_arith);
        assert(b * b >= 0) by (nonlinear_arith);
        if abs(a) > length {
            assert(abs(a) * abs(a) >= (length + 1) * (length + 1)) by (nonlinear_arith)
                requires abs(a) >= length + 1, length >= 0;
        }
    }
    let n = a * DIRECTION_SCALE;
    assert(abs(n) <= length * DIRECTION_SCALE) by (nonlinear_arith)
        requires abs(a) <= length, n == a * DIRECTION_SCALE;
    lemma_tdiv_bounds(n, length);
    if abs(tdiv(n, length)) > DIRECTION_SCALE {
        assert(abs(tdiv(n, length)) * length > DIRECTION_SCALE * length) by (nonlinear_arith)
            requires abs(tdiv(n, length)) > DIRECTION_SCALE, length > 0;
    }
}

/// Without a heading (new or reset filter) a vector passes through unchanged and becomes the heading.
pub proof fn law_first_vector_is_unchanged(s: HeadingState, x: int, y: int)
    requires
        !s.initialized,
    ensures
        heading_step(s, x, y).1 == (x, y),
        !(x == 0 && y == 0) ==> heading_step(s, x, y).0.initialized,
{
}

/// A turn of 30° or more (cosine below `COS_30_DEG`) is followed immediately, unfiltered.
pub proof fn law_sharp_turn_is_immediate(s: HeadingState, x: int, y: int)
    requires
        !(x == 0 && y == 0),
        s.heading_x * input_heading(x, magnitude_q14(x, y)) + s.heading_y * input_heading(y, magnitude_q14(x, y))
            < COS_30_DEG * DIRECTION_SCALE,
    ensures
        heading_step(s, x, y).1 == (x, y),
        heading_step(s, x, y).0.heading_x == input_heading(x, magnitude_q14(x, y)),
        heading_step(s, x, y).0.heading_y == input_heading(y, magnitude_q14(x, y)),
{
}

/// No motion produces no output and leaves the filter unchanged.
pub proof fn law_zero_motion_is_ignored(s: HeadingState)
    ensures
        heading_step(s, 0, 0) == (s, (0int, 0int)),
{
}

/// Within the filtering range the sub-count part of each axis is carried, not lost:
/// output · DIRECTION_SCALE² + new remainder = filtered motion + old remainder.
pub proof fn law_filtered_motion_is_retained(s: HeadingState, x: int, y: int)
    requires
        s.initialized,
        !(x == 0 && y == 0),
        alpha_quarters(s.heading_x * input_heading(x, magnitude_q14(x, y)) + s.heading_y * input_heading(
            y,
            magnitude_q14(x, y),
        )) < 4,
    ensures
        ({
            let (t, out) = heading_step(s, x, y);
            let ox = tdiv(magnitude_q14(x, y) * t.heading_x + s.remainder_x, DIRECTION_SCALE_SQUARED as int);
            let oy = tdiv(magnitude_q14(x, y) * t.heading_y + s.remainder_y, DIRECTION_SCALE_SQUARED as int);
            &&& ox * DIRECTION_SCALE_SQUARED + t.remainder_x == magnitude_q14(x, y) * t.heading_x + s.remainder_x
            &&& oy * DIRECTION_SCALE_SQUARED + t.remainder_y == magnitude_q14(x, y) * t.heading_y + s.remainder_y
            &&& out == (clamp_i16_spec(ox), clamp_i16_spec(oy))
        }),
{
}

/// A filtered step turns the heading toward the input by the filter's weight: with `α` the
/// quarters that the turn's cosine gives the input (one under 5°, two under 15°, three under
/// 30°), the new heading points along `(4 − α) · old heading + α · input direction`, up to
/// rounding: for some positive length `L`, each component `n` of the new heading satisfies
/// `|4 · n · L − DIRECTION_SCALE · ((4 − α) · h + α · i)| < 4 · L + 4 · DIRECTION_SCALE`.
pub proof fn law_heading_follows_weighted_mix(s: HeadingState, x: int, y: int)
    requires
        heading_state_wf(s),
        s.initialized,
        -32768 <= x <= 32767,
        -32768 <= y <= 32767,
        !(x == 0 && y == 0),
        alpha_quarters(s.heading_x * input_heading(x, magnitude_q14(x, y)) + s.heading_y * input_heading(
            y,
            magnitude_q14(x, y),
        )) < 4,
    ensures
        ({
            let ix = input_heading(x, magnitude_q14(x, y));
            let iy = input_heading(y, magnitude_q14(x, y));
            let a = alpha_quarters(s.heading_x * ix + s.heading_y * iy);
            let t = heading_step(s, x, y).0;
            exists|length: int|
                #[trigger] positive_length(length) && abs(4 * t.heading_x * length - DIRECTION_SCALE * ((4 - a) * s.heading_x + a * ix)) < 4
                    * length + 4 * DIRECTION_SCALE && abs(
                    4 * t.heading_y * length - DIRECTION_SCALE * ((4 - a) * s.heading_y + a * iy),
                ) < 4 * length + 4 * DIRECTION_SCALE
        }),
{
    let m = magnitude_q14(x, y);
    let ix = input_heading(x, m);
    let iy = input_heading(y, m);
    let a = alpha_quarters(s.heading_x * ix + s.heading_y * iy);
    lemma_input_heading_bounded(x, y);
    lemma_input_heading_bounded(y, x);
    lemma_magnitude_bounds(x, y);
    lemma_blend_not_zero(s.heading_x, s.heading_y, ix, iy, a);
    let bx = blend(s.heading_x, ix, a);
    let by = blend(s.heading_y, iy, a);
    let v = bx * bx + by * by;
    assert(v >= 1) by (nonlinear_arith) requires bx != 0 || by != 0, v == bx * bx + by * by;
    lemma_isqrt_exists(v);
    let length = isqrt(v);
    assert(is_isqrt(v, length));
    if length == 0 {
        assert((length + 1) * (length + 1) == 1) by (nonlinear_arith) requires length == 0;
    }
    let t = heading_step(s, x, y).0;
    assert(t.heading_x == renormalized(bx, length) && t.heading_y == renormalized(by, length));
    let cx = s.heading_x * (4 - a) + ix * a;
    let cy = s.heading_y * (4 - a) + iy * a;
    lemma_tdiv_bounds(cx, 4);
    lemma_tdiv_bounds(cy, 4);
    lemma_tdiv_bounds(bx * DIRECTION_SCALE, length);
    lemma_tdiv_bounds(by * DIRECTION_SCALE, length);
    let nx = t.heading_x;
    let ny = t.heading_y;
    assert(abs(4 * nx * length - DIRECTION_SCALE * cx) < 4 * length + 4 * DIRECTION_SCALE) by (nonlinear_arith)
        requires
            abs(bx * DIRECTION_SCALE - nx * length) < length,
            abs(cx - bx * 4) < 4;
    assert(abs(4 * ny * length - DIRECTION_SCALE * cy) < 4 * length + 4 * DIRECTION_SCALE) by (nonlinear_arith)
        requires
            abs(by * DIRECTION_SCALE - ny * length) < length,
            abs(cy - by * 4) < 4;
    assert(cx == (4 - a) * s.heading_x + a * ix) by (nonlinear_arith) requires cx == s.heading_x * (4 - a) + ix * a;
    assert(cy == (4 - a) * s.heading_y + a * iy) by (nonlinear_arith) requires cy == s.heading_y * (4 - a) + iy * a;
    assert(positive_length(length));
}

/// A length of a vector that is not zero.
pub open spec fn positive_length(length: int) -> bool {
    length > 0
}

} // verus!
