//! Splitting accumulated motion into report-sized chunks without changing its direction.
use vstd::prelude::*;
use crate::fixed_math::{abs, clamp_i16_spec};

verus! {

pub const MAX_RELATIVE_AXIS: u32 = 127;

/// `value / divisor` rounded half away from zero (for `divisor > 0`).
pub open spec fn rounded_div_spec(value: int, divisor: int) -> int {
    if value >= 0 {
        (value + divisor / 2) / divisor
    } else {
        -((-value + divisor / 2) / divisor)
    }
}

/// The larger magnitude of the two components.
pub open spec fn major(x: int, y: int) -> int {
    if abs(x) >= abs(y) { abs(x) } else { abs(y) }
}

/// The number of `i8` reports the larger component needs: `⌈major / 127⌉`.
pub open spec fn chunk_count_spec(x: int, y: int) -> int {
    (major(x, y) + MAX_RELATIVE_AXIS - 1) / MAX_RELATIVE_AXIS as int
}

/// The next chunk of `(x, y)`: both components divided by the same chunk count, rounded.
pub open spec fn chunk_spec(x: int, y: int) -> (int, int) {
    if major(x, y) == 0 {
        (0, 0)
    } else {
        (rounded_div_spec(x, chunk_count_spec(x, y)), rounded_div_spec(y, chunk_count_spec(x, y)))
    }
}

proof fn lemma_rounded_div_bounds(v: int, c: int, m: int)
    requires
        c >= 1,
        abs(v) <= m,
        m <= MAX_RELATIVE_AXIS * c,
    ensures
        abs(rounded_div_spec(v, c)) <= MAX_RELATIVE_AXIS,
        abs(rounded_div_spec(v, c)) <= abs(v),
        v >= 0 ==> rounded_div_spec(v, c) >= 0,
        v <= 0 ==> rounded_div_spec(v, c) <= 0,
        c == 1 ==> rounded_div_spec(v, c) == v,
{
    let a = abs(v);
    let q = (a + c / 2) / c;
    vstd::arithmetic::div_mod::lemma_div_pos_is_pos(a + c / 2, c);
    vstd::arithmetic::div_mod::lemma_fundamental_div_mod(a + c / 2, c);
    vstd::arithmetic::div_mod::lemma_mod_bound(a + c / 2, c);
    assert(q * c <= a + c / 2) by (nonlinear_arith)
        requires a + c / 2 == c * q + (a + c / 2) % c, (a + c / 2) % c >= 0;
    assert(q <= MAX_RELATIVE_AXIS) by (nonlinear_arith)
        requires q * c <= a + c / 2, a <= MAX_RELATIVE_AXIS * c, c >= 1, c / 2 < c, q >= 0;
    assert(q <= a) by (nonlinear_arith)
        requires q * c <= a + c / 2, c >= 1, q >= 0, c / 2 < c, c / 2 >= 0, a >= 0;
    if c == 1 {
        assert(q == a);
    }
}

/// With `major > 0`, the chunk of a component that reaches `major` is at least one count.
proof fn lemma_major_chunk_positive(a: int, c: int)
    requires
        a >= 1,
        c >= 1,
        c == (a + MAX_RELATIVE_AXIS - 1) / MAX_RELATIVE_AXIS as int,
    ensures
        (a + c / 2) / c >= 1,
{
    vstd::arithmetic::div_mod::lemma_fundamental_div_mod(a + MAX_RELATIVE_AXIS - 1, MAX_RELATIVE_AXIS as int);
    vstd::arithmetic::div_mod::lemma_mod_bound(a + MAX_RELATIVE_AXIS - 1, MAX_RELATIVE_AXIS as int);
    assert(c <= a) by (nonlinear_arith)
        requires
            a + 126 == 127 * c + (a + 126) % 127,
            0 <= (a + 126) % 127 < 127,
            a >= 1;
    vstd::arithmetic::div_mod::lemma_div_is_ordered(c, a + c / 2, c);
    vstd::arithmetic::div_mod::lemma_div_by_self(c);
}

/// Takes the next `i8` chunk from `(remaining_x, remaining_y)`: both components are divided by
/// the same number of reports, so every chunk keeps the direction of the whole vector.
pub fn take_proportional_i8_chunk(remaining_x: &mut i32, remaining_y: &mut i32) -> (r: (i8, i8))
    ensures
        (r.0 as int, r.1 as int) == chunk_spec(*old(remaining_x) as int, *old(remaining_y) as int),
        *final(remaining_x) == *old(remaining_x) - r.0,
        *final(remaining_y) == *old(remaining_y) - r.1,
{
    let abs_x = if *remaining_x < 0 { (-(*remaining_x as i64)) as u32 } else { *remaining_x as u32 };
    let abs_y = if *remaining_y < 0 { (-(*remaining_y as i64)) as u32 } else { *remaining_y as u32 };
    let maximum_component = if abs_x >= abs_y { abs_x } else { abs_y };
    if maximum_component == 0 {
        return (0, 0);
    }

    let chunk_count = (maximum_component + (MAX_RELATIVE_AXIS - 1)) / MAX_RELATIVE_AXIS;
    let ghost x = *remaining_x as int;
    let ghost y = *remaining_y as int;
    proof {
        assert(maximum_component == major(x, y));
        assert(chunk_count == chunk_count_spec(x, y));
        vstd::arithmetic::div_mod::lemma_fundamental_div_mod(maximum_component + 126, 127);
        vstd::arithmetic::div_mod::lemma_mod_bound(maximum_component + 126, 127);
        assert(chunk_count >= 1);
        assert(maximum_component <= MAX_RELATIVE_AXIS * chunk_count) by (nonlinear_arith)
            requires
                maximum_component + 126 == 127 * chunk_count + (maximum_component + 126) % 127,
                (maximum_component + 126) % 127 < 127;
        lemma_rounded_div_bounds(x, chunk_count as int, maximum_component as int);
        lemma_rounded_div_bounds(y, chunk_count as int, maximum_component as int);
    }
    let chunk_x = rounded_div(*remaining_x, chunk_count);
    let chunk_y = rounded_div(*remaining_y, chunk_count);

    *remaining_x = *remaining_x - chunk_x;
    *remaining_y = *remaining_y - chunk_y;

    (chunk_x as i8, chunk_y as i8)
}

fn rounded_div(value: i32, divisor: u32) -> (r: i32)
    requires
        divisor >= 1,
        abs(rounded_div_spec(value as int, divisor as int)) <= abs(value as int),
    ensures
        r == rounded_div_spec(value as int, divisor as int),
{
    let value = value as i64;
    let divisor = divisor as i64;
    let half = divisor / 2;

    if value >= 0 {
        ((value + half) / divisor) as i32
    } else {
        ((value - half) / divisor) as i32
    }
}

/// Repeated chunking makes progress: each chunk of non-zero motion strictly shrinks the larger
/// remaining component and never flips or grows either component, so a loop that takes
/// chunks until nothing remains ends, and the chunks add up to the whole motion.
pub proof fn law_chunking_makes_progress(x: int, y: int)
    requires
        i32::MIN <= x <= i32::MAX,
        i32::MIN <= y <= i32::MAX,
        !(x == 0 && y == 0),
    ensures
        ({
            let (cx, cy) = chunk_spec(x, y);
            &&& abs(cx) <= MAX_RELATIVE_AXIS && abs(cy) <= MAX_RELATIVE_AXIS
            &&& major(x - cx, y - cy) < major(x, y)
            &&& abs(x - cx) <= abs(x) && abs(y - cy) <= abs(y)
            &&& (x >= 0 ==> x - cx >= 0) && (x <= 0 ==> x - cx <= 0)
            &&& (y >= 0 ==> y - cy >= 0) && (y <= 0 ==> y - cy <= 0)
        }),
{
    let m = major(x, y);
    let c = chunk_count_spec(x, y);
    vstd::arithmetic::div_mod::lemma_fundamental_div_mod(m + 126, 127);
    vstd::arithmetic::div_mod::lemma_mod_bound(m + 126, 127);
    assert(c >= 1);
    assert(m <= MAX_RELATIVE_AXIS * c) by (nonlinear_arith)
        requires m + 126 == 127 * c + (m + 126) % 127, (m + 126) % 127 < 127;
    lemma_rounded_div_bounds(x, c, m);
    lemma_rounded_div_bounds(y, c, m);
    if abs(x) == m {
        lemma_major_chunk_positive(m, c);
    }
    if abs(y) == m {
        lemma_major_chunk_positive(m, c);
    }
}

/// Takes the `i16`-sized part of `value`, leaving the excess for later.
pub fn take_i16_chunk(value: &mut i32) -> (r: i16)
    ensures
        r as int == clamp_i16_spec(*old(value) as int),
        *final(value) == *old(value) - r,
{
    let chunk = if *value < i16::MIN as i32 {
        i16::MIN as i32
    } else if *value > i16::MAX as i32 {
        i16::MAX as i32
    } else {
        *value
    };
    *value = *value - chunk;
    chunk as i16
}

} // verus!
