//! Calibrated direction transform with input-length normalization and retained remainders.
//!
//! `Automatic` uses a precomputed rotation only for an orthogonal calibration matrix;
//! other matrices use a normalized direction map cached in 8 octants of 64 ratio buckets.
use vstd::prelude::*;
use crate::calibration_data::MatrixCoefficients;
use crate::fixed_math::{abs, clamp_i16, clamp_i16_spec, integer_sqrt, is_isqrt, isqrt, lemma_isqrt_exists, tdiv};

verus! {

pub const MATRIX_SCALE: i64 = 1000;

pub const DIRECTION_SCALE: i64 = 16384;
pub const LUT_BUCKETS: usize = 64;
pub const LUT_OCTANTS: usize = 8;
pub const LUT_SIZE: usize = 512;
pub const RATIO_SCALE: i64 = 4096;

#[derive(Clone, Copy, Debug, PartialEq, Eq, Structural)]
pub enum TransformMode {
    DirectionLut,
    Rotation,
    Automatic,
}

pub const DEFAULT_TRANSFORM_MODE: TransformMode = TransformMode::Automatic;

/// One normalized output direction, scaled so that a unit raw step maps to `DIRECTION_SCALE`.
#[derive(Clone, Copy, Debug, PartialEq, Eq, Structural)]
pub struct DirectionEntry {
    pub x: i16,
    pub y: i16,
}

/// Cosine and sine of a rotation, scaled by `DIRECTION_SCALE`.
#[derive(Clone, Copy, Debug, PartialEq, Eq, Structural)]
pub struct RotationCoefficients {
    pub cos: i32,
    pub sin: i32,
}

pub open spec fn zero_entry() -> DirectionEntry {
    DirectionEntry { x: 0, y: 0 }
}

pub open spec fn identity_rotation() -> RotationCoefficients {
    RotationCoefficients { cos: DIRECTION_SCALE as i32, sin: 0 }
}

// ---------------------------------------------------------------------------
// Mathematical model of the cached transforms.
// ---------------------------------------------------------------------------

/// Representative minor/major component ratio (scaled by `RATIO_SCALE`) of a bucket:
/// the midpoint of the bucket, with the first and last bucket pinned to the axis and diagonal.
pub open spec fn representative_ratio_spec(bucket: int) -> int {
    if bucket == 0 {
        0
    } else if bucket == LUT_BUCKETS - 1 {
        RATIO_SCALE as int
    } else {
        (bucket * RATIO_SCALE / LUT_BUCKETS as int + (bucket + 1) * RATIO_SCALE / LUT_BUCKETS as int) / 2
    }
}

/// Raw x of the representative vector of a direction-map index.
/// The octant is `index / 64`: bit 2 swaps the major axis to y, bit 1 negates x, bit 0 negates y.
pub open spec fn lut_raw_x(index: int) -> int {
    let octant = index / LUT_BUCKETS as int;
    let minor = representative_ratio_spec(index % LUT_BUCKETS as int);
    let x = if octant >= 4 { minor } else { RATIO_SCALE as int };
    if (octant / 2) % 2 == 1 { -x } else { x }
}

/// Raw y of the representative vector of a direction-map index.
pub open spec fn lut_raw_y(index: int) -> int {
    let octant = index / LUT_BUCKETS as int;
    let minor = representative_ratio_spec(index % LUT_BUCKETS as int);
    let y = if octant >= 4 { RATIO_SCALE as int } else { minor };
    if octant % 2 == 1 { -y } else { y }
}

/// First row of `M · raw` (in thousandths).
pub open spec fn matrix_x(m: MatrixCoefficients, x: int, y: int) -> int {
    x * m.m00 + y * m.m01
}

/// Second row of `M · raw` (in thousandths).
pub open spec fn matrix_y(m: MatrixCoefficients, x: int, y: int) -> int {
    x * m.m10 + y * m.m11
}

/// `|M · raw|²` of a direction-map representative fits the `u64` arithmetic that measures it.
pub open spec fn lut_entry_fits(m: MatrixCoefficients, index: int) -> bool {
    let ox = matrix_x(m, lut_raw_x(index), lut_raw_y(index));
    let oy = matrix_y(m, lut_raw_x(index), lut_raw_y(index));
    ox * ox + oy * oy <= u64::MAX
}

pub open spec fn lut_fits(m: MatrixCoefficients) -> bool {
    forall|i: int| 0 <= i < LUT_SIZE ==> #[trigger] lut_entry_fits(m, i)
}

/// One normalized component: `o · |raw| / |M·raw|`, rescaled from thousandths and the
/// ratio scale to `DIRECTION_SCALE`, truncating each division, clamped to `i16`.
pub open spec fn normalized_component(o: int, raw_length: int, transformed_length: int) -> int {
    clamp_i16_spec(
        tdiv(tdiv(o * raw_length, transformed_length) * DIRECTION_SCALE, MATRIX_SCALE * RATIO_SCALE),
    )
}

/// The cached direction for map index `index` under matrix `m`:
/// `M·raw` rescaled to the length of `raw` (per unit of the major raw component).
pub open spec fn lut_entry_spec(m: MatrixCoefficients, index: int) -> DirectionEntry {
    let rx = lut_raw_x(index);
    let ry = lut_raw_y(index);
    let ox = matrix_x(m, rx, ry);
    let oy = matrix_y(m, rx, ry);
    let raw_length = isqrt((rx * rx + ry * ry) * MATRIX_SCALE * MATRIX_SCALE);
    let transformed_length = isqrt(ox * ox + oy * oy);
    if raw_length == 0 || transformed_length == 0 {
        zero_entry()
    } else {
        DirectionEntry {
            x: normalized_component(ox, raw_length, transformed_length) as i16,
            y: normalized_component(oy, raw_length, transformed_length) as i16,
        }
    }
}

/// The whole direction map of a matrix.
pub open spec fn lut_spec(m: MatrixCoefficients) -> Seq<DirectionEntry> {
    Seq::new(LUT_SIZE as nat, |i: int| lut_entry_spec(m, i))
}

pub open spec fn column_dot(m: MatrixCoefficients) -> int {
    m.m00 * m.m01 + m.m10 * m.m11
}

/// A matrix whose columns are orthogonal and of equal length, within 1/32 of the longer column.
pub open spec fn rotation_compatible_spec(m: MatrixCoefficients) -> bool {
    let first = m.m00 * m.m00 + m.m10 * m.m10;
    let second = m.m01 * m.m01 + m.m11 * m.m11;
    let maximum = if first >= second { first } else { second };
    &&& maximum != 0
    &&& abs(column_dot(m)) * 32 <= maximum
    &&& abs(first - second) * 32 <= maximum
}

pub open spec fn rotation_sum(m: MatrixCoefficients) -> int {
    m.m00 + m.m11
}

pub open spec fn rotation_difference(m: MatrixCoefficients) -> int {
    m.m10 - m.m01
}

/// The squared length that `build_rotation` measures fits its `i64` arithmetic.
pub open spec fn rotation_fits(m: MatrixCoefficients) -> bool {
    rotation_sum(m) * rotation_sum(m) + rotation_difference(m) * rotation_difference(m) <= i64::MAX
}

/// The single rotation closest to `m`: the angle of `(m00 + m11, m10 - m01)`.
pub open spec fn rotation_spec(m: MatrixCoefficients) -> RotationCoefficients {
    let sum = rotation_sum(m);
    let difference = rotation_difference(m);
    let length = isqrt(sum * sum + difference * difference);
    if length == 0 {
        identity_rotation()
    } else {
        RotationCoefficients {
            cos: tdiv(sum * DIRECTION_SCALE, length) as i32,
            sin: tdiv(difference * DIRECTION_SCALE, length) as i32,
        }
    }
}

/// The transform actually used for `m` in `mode`.
pub open spec fn active_mode_spec(mode: TransformMode, m: MatrixCoefficients) -> TransformMode {
    match mode {
        TransformMode::DirectionLut => TransformMode::DirectionLut,
        TransformMode::Rotation => TransformMode::Rotation,
        TransformMode::Automatic => if rotation_compatible_spec(m) {
            TransformMode::Rotation
        } else {
            TransformMode::DirectionLut
        },
    }
}

/// The matrices a transform in `mode` can cache without leaving its integer ranges.
pub open spec fn matrix_supported(mode: TransformMode, m: MatrixCoefficients) -> bool {
    &&& active_mode_spec(mode, m) == TransformMode::Rotation ==> rotation_fits(m)
    &&& active_mode_spec(mode, m) == TransformMode::DirectionLut ==> lut_fits(m)
}

/// Direction-map index of a raw vector: octant (y negative, x negative, |x| < |y|)
/// and bucket `64 · minor / major`, capped at 63.
pub open spec fn lut_index_spec(raw_x: int, raw_y: int) -> int {
    let ax = abs(raw_x);
    let ay = abs(raw_y);
    let major = if ax >= ay { ax } else { ay };
    let minor = if ax >= ay { ay } else { ax };
    let b = minor * LUT_BUCKETS as int / major;
    let bucket = if b >= LUT_BUCKETS { LUT_BUCKETS - 1 } else { b };
    let octant = (if raw_y < 0 { 1int } else { 0 }) + (if raw_x < 0 { 2int } else { 0 })
        + (if ax < ay { 4int } else { 0 });
    octant * LUT_BUCKETS as int + bucket
}

pub open spec fn major_component(raw_x: int, raw_y: int) -> int {
    if abs(raw_x) >= abs(raw_y) { abs(raw_x) } else { abs(raw_y) }
}

/// Scaled x output before quantization (direction map), including the retained remainder.
pub open spec fn lut_numerator_x(m: MatrixCoefficients, raw_x: int, raw_y: int, remainder: int) -> int {
    lut_entry_spec(m, lut_index_spec(raw_x, raw_y)).x * major_component(raw_x, raw_y) + remainder
}

/// Scaled y output before quantization (direction map), including the retained remainder.
pub open spec fn lut_numerator_y(m: MatrixCoefficients, raw_x: int, raw_y: int, remainder: int) -> int {
    lut_entry_spec(m, lut_index_spec(raw_x, raw_y)).y * major_component(raw_x, raw_y) + remainder
}

/// Scaled x output before quantization (rotation), including the retained remainder.
pub open spec fn rotation_numerator_x(r: RotationCoefficients, raw_x: int, raw_y: int, remainder: int) -> int {
    r.cos * raw_x - r.sin * raw_y + remainder
}

/// Scaled y output before quantization (rotation), including the retained remainder.
pub open spec fn rotation_numerator_y(r: RotationCoefficients, raw_x: int, raw_y: int, remainder: int) -> int {
    r.sin * raw_x + r.cos * raw_y + remainder
}

/// Scaled output of one step before quantization, for the transform of `m` in `mode`.
pub open spec fn numerator_x(mode: TransformMode, m: MatrixCoefficients, raw_x: int, raw_y: int, remainder: int) -> int {
    if active_mode_spec(mode, m) == TransformMode::Rotation {
        rotation_numerator_x(rotation_spec(m), raw_x, raw_y, remainder)
    } else {
        lut_numerator_x(m, raw_x, raw_y, remainder)
    }
}

pub open spec fn numerator_y(mode: TransformMode, m: MatrixCoefficients, raw_x: int, raw_y: int, remainder: int) -> int {
    if active_mode_spec(mode, m) == TransformMode::Rotation {
        rotation_numerator_y(rotation_spec(m), raw_x, raw_y, remainder)
    } else {
        lut_numerator_y(m, raw_x, raw_y, remainder)
    }
}

/// Whole output counts of a scaled numerator.
pub open spec fn quantized(numerator: int) -> int {
    tdiv(numerator, DIRECTION_SCALE as int)
}

/// What is left of a scaled numerator after its whole counts are reported.
pub open spec fn leftover(numerator: int) -> int {
    numerator - quantized(numerator) * DIRECTION_SCALE
}

pub proof fn lemma_tdiv_bounds(n: int, d: int)
    requires
        d > 0,
    ensures
        abs(n - tdiv(n, d) * d) < d,
        n >= 0 ==> 0 <= n - tdiv(n, d) * d,
        n < 0 ==> n - tdiv(n, d) * d <= 0,
        abs(tdiv(n, d)) * d <= abs(n),
        abs(tdiv(n, d)) <= abs(n),
{
    let a = abs(n);
    let q = a / d;
    let r = a % d;
    vstd::arithmetic::div_mod::lemma_fundamental_div_mod(a, d);
    vstd::arithmetic::div_mod::lemma_mod_bound(a, d);
    vstd::arithmetic::div_mod::lemma_div_pos_is_pos(a, d);
    assert(q * d <= a) by (nonlinear_arith) requires a == d * q + r, 0 <= r, d > 0;
    assert(q <= a) by (nonlinear_arith) requires q * d <= a, q >= 0, d > 0;
    if n >= 0 {
        assert(tdiv(n, d) == q);
        assert(n - q * d == r) by (nonlinear_arith) requires a == d * q + r, n == a;
    } else {
        assert(tdiv(n, d) == -q);
        assert(n - (-q) * d == -r) by (nonlinear_arith) requires a == d * q + r, n == -a;
    }
}

// ---------------------------------------------------------------------------
// Executable transform.
// ---------------------------------------------------------------------------

pub struct TrackballTransform {
    output_x_remainder: i64,
    output_y_remainder: i64,
    cached_matrix: Option<MatrixCoefficients>,
    direction_lut: Vec<DirectionEntry>,
    rotation: RotationCoefficients,
    mode: TransformMode,
    active_mode: TransformMode,
}

impl TrackballTransform {
    /// Retained x output below one count, scaled by `DIRECTION_SCALE`.
    pub closed spec fn remainder_x(&self) -> int {
        self.output_x_remainder as int
    }

    pub closed spec fn remainder_y(&self) -> int {
        self.output_y_remainder as int
    }

    /// The matrix the cached transform was built for.
    pub closed spec fn cached(&self) -> Option<MatrixCoefficients> {
        self.cached_matrix
    }

    /// The configured mode.
    pub closed spec fn mode_spec(&self) -> TransformMode {
        self.mode
    }

    /// The transform in use: the configured mode until the first matrix is cached.
    pub closed spec fn active_spec(&self) -> TransformMode {
        self.active_mode
    }

    /// Internal consistency: the cache holds exactly the transform of the cached matrix.
    pub closed spec fn wf(&self) -> bool {
        &&& self.direction_lut@.len() == LUT_SIZE
        &&& abs(self.output_x_remainder as int) < DIRECTION_SCALE
        &&& abs(self.output_y_remainder as int) < DIRECTION_SCALE
        &&& match self.cached_matrix {
            None => self.active_mode == self.mode,
            Some(m) => {
                &&& self.active_mode == active_mode_spec(self.mode, m)
                &&& matrix_supported(self.mode, m)
                &&& self.active_mode == TransformMode::DirectionLut ==> self.direction_lut@ == lut_spec(m)
                &&& self.active_mode == TransformMode::Rotation ==> self.rotation == rotation_spec(m)
            },
        }
    }

    pub fn new() -> (r: Self)
        ensures
            r.wf(),
            r.mode_spec() == TransformMode::Automatic,
            r.cached() is None,
            r.remainder_x() == 0,
            r.remainder_y() == 0,
    {
        Self::with_mode(DEFAULT_TRANSFORM_MODE)
    }

    pub fn with_mode(mode: TransformMode) -> (r: Self)
        ensures
            r.wf(),
            r.mode_spec() == mode,
            r.active_spec() == mode,
            r.cached() is None,
            r.remainder_x() == 0,
            r.remainder_y() == 0,
    {
        let mut direction_lut: Vec<DirectionEntry> = Vec::new();
        let mut i: usize = 0;
        while i < LUT_SIZE
            invariant
                i <= LUT_SIZE,
                direction_lut@.len() == i,
            decreases LUT_SIZE - i,
        {
            direction_lut.push(DirectionEntry { x: 0, y: 0 });
            i = i + 1;
        }
        Self {
            output_x_remainder: 0,
            output_y_remainder: 0,
            cached_matrix: None,
            direction_lut,
            rotation: RotationCoefficients { cos: DIRECTION_SCALE as i32, sin: 0 },
            mode,
            active_mode: mode,
        }
    }

    /// The transform in use.
    pub fn active_mode(&self) -> (r: TransformMode)
        ensures
            r == self.active_spec(),
    {
        self.active_mode
    }

    /// Transforms one raw motion vector: `M · raw` rescaled to `|raw|`, with the sub-count
    /// part of each axis retained for the next call. The cache is rebuilt, and the retained
    /// remainders dropped, only when the matrix differs from the cached one.
    pub fn apply(&mut self, raw_x: i16, raw_y: i16, matrix: MatrixCoefficients) -> (r: (i16, i16))
        requires
            old(self).wf(),
            matrix_supported(old(self).mode_spec(), matrix),
        ensures
            final(self).wf(),
            final(self).mode_spec() == old(self).mode_spec(),
            raw_x == 0 && raw_y == 0 ==> r == (0i16, 0i16) && *final(self) == *old(self),
            (r.0 as int, r.1 as int) == transform_output(*old(self), raw_x as int, raw_y as int, matrix),
            transform_next(*old(self), *final(self), raw_x as int, raw_y as int, matrix),
            !(raw_x == 0 && raw_y == 0) ==> {
                let mode = old(self).mode_spec();
                let kept = old(self).cached() == Some(matrix);
                let rx = if kept { old(self).remainder_x() } else { 0 };
                let ry = if kept { old(self).remainder_y() } else { 0 };
                let nx = numerator_x(mode, matrix, raw_x as int, raw_y as int, rx);
                let ny = numerator_y(mode, matrix, raw_x as int, raw_y as int, ry);
                &&& final(self).cached() == Some(matrix)
                &&& final(self).active_spec() == active_mode_spec(mode, matrix)
                &&& r.0 as int == clamp_i16_spec(quantized(nx))
                &&& r.1 as int == clamp_i16_spec(quantized(ny))
                &&& final(self).remainder_x() == leftover(nx)
                &&& final(self).remainder_y() == leftover(ny)
            },
    {
        if raw_x == 0 && raw_y == 0 {
            return (0, 0);
        }

        self.ensure_cache(matrix);

        match self.active_mode {
            TransformMode::DirectionLut => self.apply_direction_lut(raw_x, raw_y),
            TransformMode::Rotation => self.apply_rotation(raw_x, raw_y),
            TransformMode::Automatic => {
                proof {
                    assert(false);
                }
                (0, 0)
            },
        }
    }

    fn ensure_cache(&mut self, matrix: MatrixCoefficients)
        requires
            old(self).wf(),
            matrix_supported(old(self).mode, matrix),
        ensures
            final(self).wf(),
            final(self).mode == old(self).mode,
            final(self).cached_matrix == Some(matrix),
            old(self).cached_matrix == Some(matrix) ==> *final(self) == *old(self),
            old(self).cached_matrix != Some(matrix) ==> final(self).output_x_remainder == 0
                && final(self).output_y_remainder == 0,
    {
        if let Some(cached) = self.cached_matrix {
            if cached == matrix {
                return;
            }
        }

        let active = match self.mode {
            TransformMode::DirectionLut => TransformMode::DirectionLut,
            TransformMode::Rotation => TransformMode::Rotation,
            TransformMode::Automatic => {
                if is_rotation_compatible(matrix) {
                    TransformMode::Rotation
                } else {
                    TransformMode::DirectionLut
                }
            },
        };

        match active {
            TransformMode::DirectionLut => self.build_direction_lut(matrix),
            TransformMode::Rotation => self.rotation = build_rotation(matrix),
            TransformMode::Automatic => {
                proof {
                    assert(false);
                }
            },
        }
        self.active_mode = active;
        self.cached_matrix = Some(matrix);
        self.output_x_remainder = 0;
        self.output_y_remainder = 0;
    }

    fn build_direction_lut(&mut self, matrix: MatrixCoefficients)
        requires
            old(self).direction_lut@.len() == LUT_SIZE,
            lut_fits(matrix),
        ensures
            final(self).direction_lut@ == lut_spec(matrix),
            final(self).output_x_remainder == old(self).output_x_remainder,
            final(self).output_y_remainder == old(self).output_y_remainder,
            final(self).cached_matrix == old(self).cached_matrix,
            final(self).rotation == old(self).rotation,
            final(self).mode == old(self).mode,
            final(self).active_mode == old(self).active_mode,
    {
        let mut octant: usize = 0;
        while octant < LUT_OCTANTS
            invariant
                octant <= LUT_OCTANTS,
                self.direction_lut@.len() == LUT_SIZE,
                lut_fits(matrix),
                forall|i: int| 0 <= i < octant * LUT_BUCKETS ==> self.direction_lut@[i] == lut_entry_spec(matrix, i),
                self.output_x_remainder == old(self).output_x_remainder,
                self.output_y_remainder == old(self).output_y_remainder,
                self.cached_matrix == old(self).cached_matrix,
                self.rotation == old(self).rotation,
                self.mode == old(self).mode,
                self.active_mode == old(self).active_mode,
            decreases LUT_OCTANTS - octant,
        {
            let mut bucket: usize = 0;
            while bucket < LUT_BUCKETS
                invariant
                    octant < LUT_OCTANTS,
                    bucket <= LUT_BUCKETS,
                    self.direction_lut@.len() == LUT_SIZE,
                    lut_fits(matrix),
                    forall|i: int| 0 <= i < octant * LUT_BUCKETS + bucket ==> self.direction_lut@[i] == lut_entry_spec(matrix, i),
                    self.output_x_remainder == old(self).output_x_remainder,
                    self.output_y_remainder == old(self).output_y_remainder,
                    self.cached_matrix == old(self).cached_matrix,
                    self.rotation == old(self).rotation,
                    self.mode == old(self).mode,
                    self.active_mode == old(self).active_mode,
                decreases LUT_BUCKETS - bucket,
            {
                let index = octant * LUT_BUCKETS + bucket;
                let min_component = representative_ratio(bucket);
                let swapped = octant & 0b100 != 0;
                let negate_x = octant & 0b010 != 0;
                let negate_y = octant & 0b001 != 0;
                proof {
                    assert(octant < 8 ==> (swapped <==> octant >= 4)) by (bit_vector)
                        requires swapped == (octant & 0b100 != 0);
                    assert(octant < 8 ==> (negate_x <==> (octant / 2) % 2 == 1)) by (bit_vector)
                        requires negate_x == (octant & 0b010 != 0);
                    assert(octant < 8 ==> (negate_y <==> octant % 2 == 1)) by (bit_vector)
                        requires negate_y == (octant & 0b001 != 0);
                    assert(index / 64 == octant && index % 64 == bucket) by (nonlinear_arith)
                        requires index == octant * 64 + bucket, bucket < 64;
                }
                let (mut raw_x, mut raw_y) = if swapped {
                    (min_component, RATIO_SCALE)
                } else {
                    (RATIO_SCALE, min_component)
                };

                if negate_x {
                    raw_x = -raw_x;
                }
                if negate_y {
                    raw_y = -raw_y;
                }
                proof {
                    assert(raw_x == lut_raw_x(index as int));
                    assert(raw_y == lut_raw_y(index as int));
                    assert(lut_entry_fits(matrix, index as int));
                }
                let entry = normalized_per_max(raw_x, raw_y, matrix);
                self.direction_lut.set(index, entry);
                bucket = bucket + 1;
            }
            octant = octant + 1;
        }
        proof {
            assert(self.direction_lut@ =~= lut_spec(matrix));
        }
    }

    fn apply_direction_lut(&mut self, raw_x: i16, raw_y: i16) -> (r: (i16, i16))
        requires
            old(self).wf(),
            old(self).cached_matrix is Some,
            old(self).active_mode == TransformMode::DirectionLut,
            !(raw_x == 0 && raw_y == 0),
        ensures
            final(self).wf(),
            final(self).cached_matrix == old(self).cached_matrix,
            final(self).mode == old(self).mode,
            final(self).active_mode == old(self).active_mode,
            ({
                let m = old(self).cached_matrix->0;
                let nx = lut_numerator_x(m, raw_x as int, raw_y as int, old(self).output_x_remainder as int);
                let ny = lut_numerator_y(m, raw_x as int, raw_y as int, old(self).output_y_remainder as int);
                &&& r.0 as int == clamp_i16_spec(quantized(nx))
                &&& r.1 as int == clamp_i16_spec(quantized(ny))
                &&& final(self).output_x_remainder == leftover(nx)
                &&& final(self).output_y_remainder == leftover(ny)
            }),
    {
        let ghost m = self.cached_matrix->0;
        let raw_x = raw_x as i64;
        let raw_y = raw_y as i64;
        let abs_x = if raw_x < 0 { -raw_x } else { raw_x };
        let abs_y = if raw_y < 0 { -raw_y } else { raw_y };
        let max_component = if abs_x >= abs_y { abs_x } else { abs_y };
        let min_component = if abs_x >= abs_y { abs_y } else { abs_x };
        proof {
            assert(0 <= min_component * 64 <= 64 * max_component) by (nonlinear_arith)
                requires 0 <= min_component <= max_component;
            vstd::arithmetic::div_mod::lemma_div_is_ordered(
                min_component * 64, 64 * max_component, max_component as int);
            vstd::arithmetic::div_mod::lemma_div_by_multiple(64, max_component as int);
            vstd::arithmetic::div_mod::lemma_div_pos_is_pos(min_component * 64, max_component as int);
        }
        let mut bucket = (min_component * LUT_BUCKETS as i64 / max_component) as usize;
        if bucket >= LUT_BUCKETS {
            bucket = LUT_BUCKETS - 1;
        }

        let octant: usize = (if raw_y < 0 { 1 } else { 0 }) + (if raw_x < 0 { 2 } else { 0 }) + (if abs_x < abs_y { 4 } else { 0 });
        let index = octant * LUT_BUCKETS + bucket;
        proof {
            assert(index == lut_index_spec(raw_x as int, raw_y as int));
            assert(index < LUT_SIZE);
        }
        let entry = self.direction_lut[index];
        proof {
            assert(abs(entry.x * max_component) <= 32768 * 32768) by (nonlinear_arith)
                requires i16::MIN <= entry.x <= i16::MAX, 0 <= max_component <= 32768;
            assert(abs(entry.y * max_component) <= 32768 * 32768) by (nonlinear_arith)
                requires i16::MIN <= entry.y <= i16::MAX, 0 <= max_component <= 32768;
        }

        let output_x_numerator = entry.x as i64 * max_component + self.output_x_remainder;
        let output_y_numerator = entry.y as i64 * max_component + self.output_y_remainder;
        let output_x = output_x_numerator / DIRECTION_SCALE;
        let output_y = output_y_numerator / DIRECTION_SCALE;

        self.output_x_remainder = output_x_numerator - output_x * DIRECTION_SCALE;
        self.output_y_remainder = output_y_numerator - output_y * DIRECTION_SCALE;
        proof {
            assert(entry == lut_entry_spec(m, index as int));
            assert(max_component == major_component(raw_x as int, raw_y as int));
            assert(output_x == quantized(output_x_numerator as int));
            assert(output_y == quantized(output_y_numerator as int));
            lemma_tdiv_bounds(output_x_numerator as int, DIRECTION_SCALE as int);
            lemma_tdiv_bounds(output_y_numerator as int, DIRECTION_SCALE as int);
        }

        (clamp_i16(output_x), clamp_i16(output_y))
    }

    fn apply_rotation(&mut self, raw_x: i16, raw_y: i16) -> (r: (i16, i16))
        requires
            old(self).wf(),
            old(self).cached_matrix is Some,
            old(self).active_mode == TransformMode::Rotation,
        ensures
            final(self).wf(),
            final(self).cached_matrix == old(self).cached_matrix,
            final(self).mode == old(self).mode,
            final(self).active_mode == old(self).active_mode,
            ({
                let m = old(self).cached_matrix->0;
                let nx = rotation_numerator_x(rotation_spec(m), raw_x as int, raw_y as int, old(self).output_x_remainder as int);
                let ny = rotation_numerator_y(rotation_spec(m), raw_x as int, raw_y as int, old(self).output_y_remainder as int);
                &&& r.0 as int == clamp_i16_spec(quantized(nx))
                &&& r.1 as int == clamp_i16_spec(quantized(ny))
                &&& final(self).output_x_remainder == leftover(nx)
                &&& final(self).output_y_remainder == leftover(ny)
            }),
    {
        let ghost m = self.cached_matrix->0;
        proof {
            lemma_rotation_bounded(m);
        }
        let cos = self.rotation.cos as i64;
        let sin = self.rotation.sin as i64;
        let raw_x = raw_x as i64;
        let raw_y = raw_y as i64;
        proof {
            assert(-16384 * 32768 <= cos * raw_x <= 16384 * 32768) by (nonlinear_arith)
                requires -16384 <= cos <= 16384, -32768 <= raw_x <= 32768;
            assert(-16384 * 32768 <= sin * raw_y <= 16384 * 32768) by (nonlinear_arith)
                requires -16384 <= sin <= 16384, -32768 <= raw_y <= 32768;
            assert(-16384 * 32768 <= sin * raw_x <= 16384 * 32768) by (nonlinear_arith)
                requires -16384 <= sin <= 16384, -32768 <= raw_x <= 32768;
            assert(-16384 * 32768 <= cos * raw_y <= 16384 * 32768) by (nonlinear_arith)
                requires -16384 <= cos <= 16384, -32768 <= raw_y <= 32768;
        }
        let output_x_numerator = cos * raw_x - sin * raw_y + self.output_x_remainder;
        let output_y_numerator = sin * raw_x + cos * raw_y + self.output_y_remainder;
        let output_x = output_x_numerator / DIRECTION_SCALE;
        let output_y = output_y_numerator / DIRECTION_SCALE;

        self.output_x_remainder = output_x_numerator - output_x * DIRECTION_SCALE;
        self.output_y_remainder = output_y_numerator - output_y * DIRECTION_SCALE;
        proof {
            assert(output_x == quantized(output_x_numerator as int));
            assert(output_y == quantized(output_y_numerator as int));
            lemma_tdiv_bounds(output_x_numerator as int, DIRECTION_SCALE as int);
            lemma_tdiv_bounds(output_y_numerator as int, DIRECTION_SCALE as int);
        }

        (clamp_i16(output_x), clamp_i16(output_y))
    }
}

/// The cosine and sine of the cached rotation lie within `±DIRECTION_SCALE`.
pub proof fn lemma_rotation_bounded(m: MatrixCoefficients)
    ensures
        abs(rotation_spec(m).cos as int) <= DIRECTION_SCALE,
        abs(rotation_spec(m).sin as int) <= DIRECTION_SCALE,
{
    let sum = rotation_sum(m);
    let difference = rotation_difference(m);
    let length = isqrt(sum * sum + difference * difference);
    assert(sum * sum >= 0 && difference * difference >= 0) by (nonlinear_arith);
    lemma_isqrt_exists(sum * sum + difference * difference);
    if length != 0 {
        lemma_component_over_length(sum, difference, length);
        lemma_component_over_length(difference, sum, length);
    }
}

/// For `length = isqrt(a² + b²) > 0`, `|a · S / length| <= S`.
proof fn lemma_component_over_length(a: int, b: int, length: int)
    requires
        length > 0,
        is_isqrt(a * a + b * b, length),
    ensures
        abs(tdiv(a * DIRECTION_SCALE, length)) <= DIRECTION_SCALE,
{
    assert(abs(a) <= length) by {
        assert(abs(a) * abs(a) == a * a) by (nonlinear_arith);
        assert(b * b >= 0) by (nonlinear_arith);
        if abs(a) > length {
            assert(abs(a) * abs(a) >= (length + 1) * (length + 1)) by (nonlinear_arith)
                requires abs(a) >= length + 1, length >= 0;
        }
    }
    let n = a * DIRECTION_SCALE;
    assert(abs(n) <= length * DIRECTION_SCALE) by (nonlinear_arith)
        requires abs(a) <= length, n == a * DIRECTION_SCALE;
    lemma_tdiv_bounds(n, length);
    if abs(tdiv(n, length)) > DIRECTION_SCALE {
        assert(abs(tdiv(n, length)) * length > DIRECTION_SCALE * length) by (nonlinear_arith)
            requires abs(tdiv(n, length)) > DIRECTION_SCALE, length > 0;
    }
}

fn representative_ratio(bucket: usize) -> (r: i64)
    requires
        bucket < LUT_BUCKETS,
    ensures
        r == representative_ratio_spec(bucket as int),
        0 <= r <= RATIO_SCALE,
{
    if bucket == 0 {
        return 0;
    }
    if bucket == LUT_BUCKETS - 1 {
        return RATIO_SCALE;
    }

    let low = bucket as i64 * RATIO_SCALE / LUT_BUCKETS as i64;
    let high = (bucket as i64 + 1) * RATIO_SCALE / LUT_BUCKETS as i64;
    (low + high) / 2
}

fn abs_u64(value: i64) -> (r: u64)
    ensures
        r as int == abs(value as int),
{
    if value < 0 {
        (-(value as i128)) as u64
    } else {
        value as u64
    }
}

fn clamp_i16_i128(value: i128) -> (r: i16)
    ensures
        r as int == clamp_i16_spec(value as int),
{
    if value < i16::MIN as i128 {
        i16::MIN
    } else if value > i16::MAX as i128 {
        i16::MAX
    } else {
        value as i16
    }
}

fn normalized_per_max(raw_x: i64, raw_y: i64, matrix: MatrixCoefficients) -> (r: DirectionEntry)
    requires
        abs(raw_x as int) <= RATIO_SCALE,
        abs(raw_y as int) <= RATIO_SCALE,
        ({
            let ox = matrix_x(matrix, raw_x as int, raw_y as int);
            let oy = matrix_y(matrix, raw_x as int, raw_y as int);
            ox * ox + oy * oy <= u64::MAX
        }),
    ensures
        ({
            let rx = raw_x as int;
            let ry = raw_y as int;
            let ox = matrix_x(matrix, rx, ry);
            let oy = matrix_y(matrix, rx, ry);
            let raw_length = isqrt((rx * rx + ry * ry) * MATRIX_SCALE * MATRIX_SCALE);
            let transformed_length = isqrt(ox * ox + oy * oy);
            r == if raw_length == 0 || transformed_length == 0 {
                zero_entry()
            } else {
                DirectionEntry {
                    x: normalized_component(ox, raw_length, transformed_length) as i16,
                    y: normalized_component(oy, raw_length, transformed_length) as i16,
                }
            }
        }),
{
    proof {
        assert(-(4096 * 0x8000_0000int) <= raw_x * matrix.m00 <= 4096 * 0x8000_0000int) by (nonlinear_arith)
            requires abs(raw_x as int) <= 4096, i32::MIN <= matrix.m00 <= i32::MAX;
        assert(-(4096 * 0x8000_0000int) <= raw_y * matrix.m01 <= 4096 * 0x8000_0000int) by (nonlinear_arith)
            requires abs(raw_y as int) <= 4096, i32::MIN <= matrix.m01 <= i32::MAX;
        assert(-(4096 * 0x8000_0000int) <= raw_x * matrix.m10 <= 4096 * 0x8000_0000int) by (nonlinear_arith)
            requires abs(raw_x as int) <= 4096, i32::MIN <= matrix.m10 <= i32::MAX;
        assert(-(4096 * 0x8000_0000int) <= raw_y * matrix.m11 <= 4096 * 0x8000_0000int) by (nonlinear_arith)
            requires abs(raw_y as int) <= 4096, i32::MIN <= matrix.m11 <= i32::MAX;
        assert(0 <= raw_x * raw_x <= 4096 * 4096) by (nonlinear_arith)
            requires abs(raw_x as int) <= 4096;
        assert(0 <= raw_y * raw_y <= 4096 * 4096) by (nonlinear_arith)
            requires abs(raw_y as int) <= 4096;
    }
    let output_x_numerator = raw_x * matrix.m00 as i64 + raw_y * matrix.m01 as i64;
    let output_y_numerator = raw_x * matrix.m10 as i64 + raw_y * matrix.m11 as i64;
    let squared = (raw_x * raw_x + raw_y * raw_y) as u64;
    let raw_length = integer_sqrt(squared * 1000 * 1000);
    let abs_x = abs_u64(output_x_numerator);
    let abs_y = abs_u64(output_y_numerator);
    proof {
        assert(abs_x * abs_x == output_x_numerator * output_x_numerator) by (nonlinear_arith)
            requires abs_x as int == abs(output_x_numerator as int);
        assert(abs_y * abs_y == output_y_numerator * output_y_numerator) by (nonlinear_arith)
            requires abs_y as int == abs(output_y_numerator as int);
        assert(0 <= abs_x * abs_x) by (nonlinear_arith);
        assert(0 <= abs_y * abs_y) by (nonlinear_arith);
    }
    let transformed_length = integer_sqrt(abs_x * abs_x + abs_y * abs_y);

    if raw_length == 0 || transformed_length == 0 {
        return DirectionEntry { x: 0, y: 0 };
    }

    proof {
        assert(abs(output_x_numerator as int) <= 0x1_0000_0000_0000_0000) by (nonlinear_arith)
            requires
                abs_x * abs_x <= u64::MAX,
                abs_x as int == abs(output_x_numerator as int);
        assert(abs(output_y_numerator as int) <= 0x1_0000_0000_0000_0000) by (nonlinear_arith)
            requires
                abs_y * abs_y <= u64::MAX,
                abs_y as int == abs(output_y_numerator as int);
        assert(abs(output_x_numerator * raw_length) <= 0x1_0000_0000_0000_0000 * 0x1_0000_0000) by (nonlinear_arith)
            requires
                abs(output_x_numerator as int) <= 0x1_0000_0000_0000_0000,
                0 <= raw_length <= 0x1_0000_0000;
        assert(abs(output_y_numerator * raw_length) <= 0x1_0000_0000_0000_0000 * 0x1_0000_0000) by (nonlinear_arith)
            requires
                abs(output_y_numerator as int) <= 0x1_0000_0000_0000_0000,
                0 <= raw_length <= 0x1_0000_0000;
    }
    let product_x = output_x_numerator as i128 * raw_length as i128;
    let product_y = output_y_numerator as i128 * raw_length as i128;
    let normalized_x = product_x / transformed_length as i128;
    let normalized_y = product_y / transformed_length as i128;
    proof {
        lemma_tdiv_bounds(product_x as int, transformed_length as int);
        lemma_tdiv_bounds(product_y as int, transformed_length as int);
        assert(normalized_x == tdiv(product_x as int, transformed_length as int));
        assert(normalized_y == tdiv(product_y as int, transformed_length as int));
    }
    proof {
        assert(abs(normalized_x * DIRECTION_SCALE) <= 0x1_0000_0000_0000_0000 * 0x1_0000_0000 * 16384) by (nonlinear_arith)
            requires abs(normalized_x as int) <= 0x1_0000_0000_0000_0000 * 0x1_0000_0000;
        assert(abs(normalized_y * DIRECTION_SCALE) <= 0x1_0000_0000_0000_0000 * 0x1_0000_0000 * 16384) by (nonlinear_arith)
            requires abs(normalized_y as int) <= 0x1_0000_0000_0000_0000 * 0x1_0000_0000;
    }
    let denominator = MATRIX_SCALE as i128 * RATIO_SCALE as i128;
    let scaled_x = normalized_x * DIRECTION_SCALE as i128;
    let scaled_y = normalized_y * DIRECTION_SCALE as i128;
    let x = scaled_x / denominator;
    let y = scaled_y / denominator;
    proof {
        assert(x == tdiv(scaled_x as int, MATRIX_SCALE * RATIO_SCALE));
        assert(y == tdiv(scaled_y as int, MATRIX_SCALE * RATIO_SCALE));
    }

    DirectionEntry { x: clamp_i16_i128(x), y: clamp_i16_i128(y) }
}

fn is_rotation_compatible(matrix: MatrixCoefficients) -> (r: bool)
    ensures
        r == rotation_compatible_spec(matrix),
{
    let m00 = matrix.m00 as i128;
    let m01 = matrix.m01 as i128;
    let m10 = matrix.m10 as i128;
    let m11 = matrix.m11 as i128;
    proof {
        assert(0 <= m00 * m00 <= 0x4000_0000_0000_0000) by (nonlinear_arith) requires i32::MIN <= m00 <= i32::MAX;
        assert(0 <= m10 * m10 <= 0x4000_0000_0000_0000) by (nonlinear_arith) requires i32::MIN <= m10 <= i32::MAX;
        assert(0 <= m01 * m01 <= 0x4000_0000_0000_0000) by (nonlinear_arith) requires i32::MIN <= m01 <= i32::MAX;
        assert(0 <= m11 * m11 <= 0x4000_0000_0000_0000) by (nonlinear_arith) requires i32::MIN <= m11 <= i32::MAX;
        assert(abs(m00 * m01) <= 0x4000_0000_0000_0000) by (nonlinear_arith)
            requires i32::MIN <= m00 <= i32::MAX, i32::MIN <= m01 <= i32::MAX;
        assert(abs(m10 * m11) <= 0x4000_0000_0000_0000) by (nonlinear_arith)
            requires i32::MIN <= m10 <= i32::MAX, i32::MIN <= m11 <= i32::MAX;
    }
    let first_column_squared = m00 * m00 + m10 * m10;
    let second_column_squared = m01 * m01 + m11 * m11;
    let maximum_column_squared = if first_column_squared >= second_column_squared {
        first_column_squared
    } else {
        second_column_squared
    };
    if maximum_column_squared == 0 {
        return false;
    }

    let dot = m00 * m01 + m10 * m11;
    let columns_dot = if dot < 0 { -dot } else { dot };
    let difference = first_column_squared - second_column_squared;
    let columns_length_difference = if difference < 0 { -difference } else { difference };
    columns_dot * 32 <= maximum_column_squared && columns_length_difference * 32 <= maximum_column_squared
}

fn build_rotation(matrix: MatrixCoefficients) -> (r: RotationCoefficients)
    requires
        rotation_fits(matrix),
    ensures
        r == rotation_spec(matrix),
{
    let sum = matrix.m00 as i64 + matrix.m11 as i64;
    let difference = matrix.m10 as i64 - matrix.m01 as i64;
    proof {
        assert(0 <= sum * sum) by (nonlinear_arith);
        assert(0 <= difference * difference) by (nonlinear_arith);
    }
    let length = integer_sqrt((sum * sum + difference * difference) as u64);

    if length == 0 {
        return RotationCoefficients { cos: DIRECTION_SCALE as i32, sin: 0 };
    }
    proof {
        lemma_rotation_bounded(matrix);
        assert(abs(sum as int) <= 0x1_0000_0000);
        assert(abs(sum * DIRECTION_SCALE) <= 0x1_0000_0000 * 16384) by (nonlinear_arith)
            requires abs(sum as int) <= 0x1_0000_0000;
        assert(abs(difference * DIRECTION_SCALE) <= 0x1_0000_0000 * 16384) by (nonlinear_arith)
            requires abs(difference as int) <= 0x1_0000_0000;
    }
    let cos = sum * DIRECTION_SCALE / length as i64;
    let sin = difference * DIRECTION_SCALE / length as i64;
    proof {
        assert(cos == tdiv(sum * DIRECTION_SCALE, length as int));
        assert(sin == tdiv(difference * DIRECTION_SCALE, length as int));
    }
    RotationCoefficients { cos: cos as i32, sin: sin as i32 }
}

/// What [`TrackballTransform::apply`] returns for `(raw_x, raw_y)` from the transform `t`.
pub open spec fn transform_output(t: TrackballTransform, raw_x: int, raw_y: int, m: MatrixCoefficients) -> (int, int) {
    if raw_x == 0 && raw_y == 0 {
        (0, 0)
    } else {
        let kept = t.cached() == Some(m);
        let rx = if kept { t.remainder_x() } else { 0 };
        let ry = if kept { t.remainder_y() } else { 0 };
        (
            clamp_i16_spec(quantized(numerator_x(t.mode_spec(), m, raw_x, raw_y, rx))),
            clamp_i16_spec(quantized(numerator_y(t.mode_spec(), m, raw_x, raw_y, ry))),
        )
    }
}

proof fn lemma_representative_ratio_bounds(bucket: int)
    requires
        0 <= bucket < LUT_BUCKETS,
    ensures
        0 <= representative_ratio_spec(bucket) <= RATIO_SCALE,
{
}

/// Every matrix that a calibration record can hold (coefficients within ±16) is one the
/// transform can cache in any mode.
pub proof fn lemma_safe_matrix_is_supported(mode: TransformMode, m: MatrixCoefficients)
    requires
        abs(m.m00 as int) <= 16_000,
        abs(m.m01 as int) <= 16_000,
        abs(m.m10 as int) <= 16_000,
        abs(m.m11 as int) <= 16_000,
    ensures
        matrix_supported(mode, m),
{
    assert(rotation_fits(m)) by (nonlinear_arith)
        requires
            abs(rotation_sum(m)) <= 32_000,
            abs(rotation_difference(m)) <= 32_000;
    assert forall|i: int| 0 <= i < LUT_SIZE implies #[trigger] lut_entry_fits(m, i) by {
        lemma_representative_ratio_bounds(i % LUT_BUCKETS as int);
        let rx = lut_raw_x(i);
        let ry = lut_raw_y(i);
        assert(abs(rx) <= 4096 && abs(ry) <= 4096);
        let ox = matrix_x(m, rx, ry);
        let oy = matrix_y(m, rx, ry);
        assert(abs(ox) <= 131_072_000) by (nonlinear_arith)
            requires
                ox == rx * m.m00 + ry * m.m01,
                abs(rx) <= 4096,
                abs(ry) <= 4096,
                abs(m.m00 as int) <= 16_000,
                abs(m.m01 as int) <= 16_000;
        assert(abs(oy) <= 131_072_000) by (nonlinear_arith)
            requires
                oy == rx * m.m10 + ry * m.m11,
                abs(rx) <= 4096,
                abs(ry) <= 4096,
                abs(m.m10 as int) <= 16_000,
                abs(m.m11 as int) <= 16_000;
        assert(ox * ox + oy * oy <= u64::MAX) by (nonlinear_arith)
            requires
                abs(ox) <= 131_072_000,
                abs(oy) <= 131_072_000;
    }
}

/// The transform `after` is what [`TrackballTransform::apply`] leaves of `t` for `(raw_x, raw_y)`:
/// unchanged for no motion; otherwise the matrix is cached and each axis keeps what was not reported.
pub open spec fn transform_next(
    t: TrackballTransform,
    after: TrackballTransform,
    raw_x: int,
    raw_y: int,
    m: MatrixCoefficients,
) -> bool {
    &&& after.wf()
    &&& after.mode_spec() == t.mode_spec()
    &&& raw_x == 0 && raw_y == 0 ==> after == t
    &&& !(raw_x == 0 && raw_y == 0) ==> {
        let kept = t.cached() == Some(m);
        let rx = if kept { t.remainder_x() } else { 0 };
        let ry = if kept { t.remainder_y() } else { 0 };
        &&& after.cached() == Some(m)
        &&& after.active_spec() == active_mode_spec(t.mode_spec(), m)
        &&& after.remainder_x() == leftover(numerator_x(t.mode_spec(), m, raw_x, raw_y, rx))
        &&& after.remainder_y() == leftover(numerator_y(t.mode_spec(), m, raw_x, raw_y, ry))
    }
}

/// Fractional motion is retained: on each axis, unless the output saturates at the `i16`
/// range, the output in whole counts (times [`DIRECTION_SCALE`]) plus the remainder the
/// transform keeps equals the step's scaled motion including the remainder carried in, and
/// the kept remainder is always less than one count.
pub proof fn law_fractional_motion_is_retained(
    t: TrackballTransform,
    after: TrackballTransform,
    raw_x: int,
    raw_y: int,
    m: MatrixCoefficients,
)
    requires
        transform_next(t, after, raw_x, raw_y, m),
        !(raw_x == 0 && raw_y == 0),
    ensures
        ({
            let kept = t.cached() == Some(m);
            let nx = numerator_x(t.mode_spec(), m, raw_x, raw_y, if kept { t.remainder_x() } else { 0 });
            let ny = numerator_y(t.mode_spec(), m, raw_x, raw_y, if kept { t.remainder_y() } else { 0 });
            let (ox, oy) = transform_output(t, raw_x, raw_y, m);
            &&& i16::MIN <= quantized(nx) <= i16::MAX ==> ox * DIRECTION_SCALE + after.remainder_x() == nx
            &&& i16::MIN <= quantized(ny) <= i16::MAX ==> oy * DIRECTION_SCALE + after.remainder_y() == ny
            &&& abs(after.remainder_x()) < DIRECTION_SCALE
            &&& abs(after.remainder_y()) < DIRECTION_SCALE
        }),
{
    let kept = t.cached() == Some(m);
    let nx = numerator_x(t.mode_spec(), m, raw_x, raw_y, if kept { t.remainder_x() } else { 0 });
    let ny = numerator_y(t.mode_spec(), m, raw_x, raw_y, if kept { t.remainder_y() } else { 0 });
    lemma_tdiv_bounds(nx, DIRECTION_SCALE as int);
    lemma_tdiv_bounds(ny, DIRECTION_SCALE as int);
}

/// In rotation mode the output follows `M · raw`: for a calibration that is a scaled rotation
/// (`m11 == m00`, `m10 == -m01`, not zero) the scaled outputs before quantization are
/// `DIRECTION_SCALE · M·raw` divided by the column length, up to the rounding of the cached
/// angle. With `length` twice the column length (`isqrt(4 · (m00² + m10²))`):
/// `|numerator · length − 2 · DIRECTION_SCALE · (M·raw)| ≤ length · (|x| + |y|)` on each axis.
pub proof fn law_rotation_follows_matrix(mode: TransformMode, m: MatrixCoefficients, x: int, y: int)
    requires
        active_mode_spec(mode, m) == TransformMode::Rotation,
        m.m11 == m.m00,
        m.m10 == -m.m01,
        !(m.m00 == 0 && m.m10 == 0),
    ensures
        ({
            let length = isqrt(4 * (m.m00 * m.m00 + m.m10 * m.m10));
            &&& length > 0
            &&& abs(numerator_x(mode, m, x, y, 0) * length - 2 * DIRECTION_SCALE * matrix_x(m, x, y))
                <= length * (abs(x) + abs(y))
            &&& abs(numerator_y(mode, m, x, y, 0) * length - 2 * DIRECTION_SCALE * matrix_y(m, x, y))
                <= length * (abs(x) + abs(y))
        }),
{
    let sum = rotation_sum(m);
    let difference = rotation_difference(m);
    let v = sum * sum + difference * difference;
    assert(sum == 2 * m.m00 && difference == 2 * m.m10);
    assert(v == 4 * (m.m00 * m.m00 + m.m10 * m.m10)) by (nonlinear_arith)
        requires sum == 2 * m.m00, difference == 2 * m.m10, v == sum * sum + difference * difference;
    assert(v >= 4) by (nonlinear_arith)
        requires v == 4 * (m.m00 * m.m00 + m.m10 * m.m10), !(m.m00 == 0 && m.m10 == 0);
    lemma_isqrt_exists(v);
    let length = isqrt(v);
    assert(is_isqrt(v, length));
    if length == 0 {
        assert((length + 1) * (length + 1) == 1) by (nonlinear_arith) requires length == 0;
    }
    assert(length > 0);
    lemma_component_over_length(sum, difference, length);
    assert(difference * difference + sum * sum == v) by (nonlinear_arith) requires v == sum * sum + difference * difference;
    lemma_component_over_length(difference, sum, length);
    let c = tdiv(sum * DIRECTION_SCALE, length);
    let sn = tdiv(difference * DIRECTION_SCALE, length);
    assert(rotation_spec(m).cos as int == c);
    assert(rotation_spec(m).sin as int == sn);
    lemma_tdiv_bounds(sum * DIRECTION_SCALE, length);
    lemma_tdiv_bounds(difference * DIRECTION_SCALE, length);
    let e1 = c * length - sum * DIRECTION_SCALE;
    let e2 = sn * length - difference * DIRECTION_SCALE;
    assert(abs(e1) < length && abs(e2) < length);
    let nx = c * x - sn * y;
    let ny = sn * x + c * y;
    assert(numerator_x(mode, m, x, y, 0) == nx);
    assert(numerator_y(mode, m, x, y, 0) == ny);
    let a = c * length;
    let b = sn * length;
    let mx = matrix_x(m, x, y);
    let my = matrix_y(m, x, y);
    assert(nx * length == a * x - b * y) by (nonlinear_arith)
        requires nx == c * x - sn * y, a == c * length, b == sn * length;
    assert(ny * length == b * x + a * y) by (nonlinear_arith)
        requires ny == sn * x + c * y, a == c * length, b == sn * length;
    assert(a * x - b * y == e1 * x - e2 * y + DIRECTION_SCALE * (sum * x - difference * y)) by (nonlinear_arith)
        requires a == e1 + sum * DIRECTION_SCALE, b == e2 + difference * DIRECTION_SCALE;
    assert(b * x + a * y == e2 * x + e1 * y + DIRECTION_SCALE * (difference * x + sum * y)) by (nonlinear_arith)
        requires a == e1 + sum * DIRECTION_SCALE, b == e2 + difference * DIRECTION_SCALE;
    assert(sum * x - difference * y == 2 * mx) by (nonlinear_arith)
        requires sum == 2 * m.m00, difference == 2 * m.m10, m.m10 == -m.m01, mx == x * m.m00 + y * m.m01;
    assert(difference * x + sum * y == 2 * my) by (nonlinear_arith)
        requires sum == 2 * m.m00, difference == 2 * m.m10, m.m11 == m.m00, my == x * m.m10 + y * m.m11;
    assert(DIRECTION_SCALE * (sum * x - difference * y) == 2 * DIRECTION_SCALE * mx) by (nonlinear_arith)
        requires sum * x - difference * y == 2 * mx;
    assert(DIRECTION_SCALE * (difference * x + sum * y) == 2 * DIRECTION_SCALE * my) by (nonlinear_arith)
        requires difference * x + sum * y == 2 * my;
    assert(nx * length - 2 * DIRECTION_SCALE * mx == e1 * x - e2 * y);
    assert(ny * length - 2 * DIRECTION_SCALE * my == e2 * x + e1 * y);
    assert(abs(e1 * x - e2 * y) <= length * (abs(x) + abs(y))) by (nonlinear_arith)
        requires abs(e1) < length, abs(e2) < length;
    assert(abs(e2 * x + e1 * y) <= length * (abs(x) + abs(y))) by (nonlinear_arith)
        requires abs(e1) < length, abs(e2) < length;
}

} // verus!
