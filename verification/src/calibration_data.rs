//! Versioned 28-byte calibration record; macro offsets and flash slots stay unchanged.
//!
//! Layout: `RLC1`, version, sensitivity (percent), `1000` (u16 LE), four matrix coefficients,
//! four direction gains, FNV-1a checksum of the first 24 bytes (u32 LE). Version 2 stores
//! the coefficients as i16 LE at 8..16 and the gains as u16 LE at 16..24; version 1 (legacy)
//! stores only the coefficients, as i32 LE at 8..24, with a zero sensitivity byte.
use vstd::prelude::*;

verus! {

pub const BLOB_SIZE: usize = 28;

/// Direction matrix in thousandths.
#[derive(Clone, Copy, Debug, PartialEq, Eq, Structural)]
pub struct MatrixCoefficients {
    pub m00: i32,
    pub m01: i32,
    pub m10: i32,
    pub m11: i32,
}

/// The default direction matrix `[-0.265, 1.142; -0.831, 0.562]`.
pub open spec fn default_matrix() -> MatrixCoefficients {
    MatrixCoefficients { m00: -265i32, m01: 1142i32, m10: -831i32, m11: 562i32 }
}

impl Default for MatrixCoefficients {
    /// The default direction matrix.
    fn default() -> (r: Self)
        ensures
            r == default_matrix(),
    {
        MatrixCoefficients { m00: -265, m01: 1142, m10: -831, m11: 562 }
    }
}

pub open spec fn abs_int(v: int) -> int {
    if v < 0 { -v } else { v }
}

/// A matrix the pointing pipeline accepts: every coefficient within ±16 (16000 thousandths)
/// and a determinant of at least 0.01 in magnitude (not near-singular).
pub open spec fn matrix_is_safe(m: MatrixCoefficients) -> bool {
    &&& abs_int(m.m00 as int) <= 16_000
    &&& abs_int(m.m01 as int) <= 16_000
    &&& abs_int(m.m10 as int) <= 16_000
    &&& abs_int(m.m11 as int) <= 16_000
    &&& abs_int(m.m00 * m.m11 - m.m01 * m.m10) >= 10_000
}

impl MatrixCoefficients {
    /// Whether the matrix is within the accepted range (see [`matrix_is_safe`]).
    pub fn is_safe(self) -> (r: bool)
        ensures
            r == matrix_is_safe(self),
    {
        if !(abs_i32(self.m00) <= 16_000 && abs_i32(self.m01) <= 16_000 && abs_i32(self.m10) <= 16_000
            && abs_i32(self.m11) <= 16_000) {
            return false;
        }
        proof {
            assert(abs_int(self.m00 * self.m11) <= 16_000 * 16_000) by (nonlinear_arith)
                requires abs_int(self.m00 as int) <= 16_000, abs_int(self.m11 as int) <= 16_000;
            assert(abs_int(self.m01 * self.m10) <= 16_000 * 16_000) by (nonlinear_arith)
                requires abs_int(self.m01 as int) <= 16_000, abs_int(self.m10 as int) <= 16_000;
        }
        let determinant = self.m00 as i64 * self.m11 as i64 - self.m01 as i64 * self.m10 as i64;
        let magnitude = if determinant < 0 { -determinant } else { determinant };
        magnitude >= 10_000
    }
}

fn abs_i32(v: i32) -> (r: i64)
    ensures
        r == abs_int(v as int),
{
    if v < 0 { -(v as i64) } else { v as i64 }
}

/// Pointing calibration: direction matrix, per-direction gains and sensitivity.
#[derive(Clone, Copy, Debug, PartialEq, Eq)]
pub struct Calibration {
    pub matrix: MatrixCoefficients,
    /// Right, left, down, up, in thousandths.
    pub gains: [u16; 4],
    pub sensitivity: u8,
}

/// A calibration as plain values.
pub struct CalibrationView {
    pub matrix: MatrixCoefficients,
    pub gains: Seq<u16>,
    pub sensitivity: u8,
}

impl View for Calibration {
    type V = CalibrationView;

    open spec fn view(&self) -> CalibrationView {
        CalibrationView { matrix: self.matrix, gains: self.gains@, sensitivity: self.sensitivity }
    }
}

/// The default calibration: default matrix, unity gains, 100 % sensitivity.
pub open spec fn default_calibration() -> CalibrationView {
    CalibrationView { matrix: default_matrix(), gains: seq![1000u16, 1000u16, 1000u16, 1000u16], sensitivity: 100 }
}

/// A calibration that the current record format stores and reads back unchanged.
pub open spec fn calibration_is_valid(c: CalibrationView) -> bool {
    &&& c.gains.len() == 4
    &&& forall|i: int| 0 <= i < 4 ==> 500 <= #[trigger] c.gains[i] <= 2000
    &&& 50 <= c.sensitivity <= 150
    &&& matrix_is_safe(c.matrix)
}

impl Default for Calibration {
    fn default() -> (r: Self)
        ensures
            r@ == default_calibration(),
    {
        let r = Calibration { matrix: MatrixCoefficients::default(), gains: [1000; 4], sensitivity: 100 };
        proof {
            assert(r@.gains =~= seq![1000u16, 1000u16, 1000u16, 1000u16]);
        }
        r
    }
}

impl Calibration {
    /// The default calibration with another matrix.
    pub fn from_matrix(matrix: MatrixCoefficients) -> (r: Self)
        ensures
            r@ == (CalibrationView { matrix, ..default_calibration() }),
    {
        let d = Calibration::default();
        Calibration { matrix, gains: d.gains, sensitivity: d.sensitivity }
    }
}

// ---------------------------------------------------------------------------
// Byte-level model.
// ---------------------------------------------------------------------------

/// One FNV-1a step.
pub open spec fn fnv1a_step(hash: u32, byte: u8) -> u32 {
    (((hash ^ (byte as u32)) as nat * 0x0100_0193nat) % 0x1_0000_0000nat) as u32
}

/// FNV-1a (32-bit) of `bytes`, continuing from `hash`.
pub open spec fn fnv1a(hash: u32, bytes: Seq<u8>) -> u32
    decreases bytes.len(),
{
    if bytes.len() == 0 {
        hash
    } else {
        fnv1a_step(fnv1a(hash, bytes.drop_last()), bytes.last())
    }
}

pub const FNV_OFFSET_BASIS: u32 = 0x811c_9dc5;

/// Little-endian `u16` of two bytes.
pub open spec fn le_u16(b0: u8, b1: u8) -> u16 {
    (b0 as u16) | ((b1 as u16) << 8)
}

/// Little-endian `u32` of four bytes.
pub open spec fn le_u32(b0: u8, b1: u8, b2: u8, b3: u8) -> u32 {
    (b0 as u32) | ((b1 as u32) << 8) | ((b2 as u32) << 16) | ((b3 as u32) << 24)
}

/// Byte `k` (little-endian) of a `u32`.
pub open spec fn u32_byte(v: u32, k: u32) -> u8 {
    ((v >> (8 * k)) & 0xff) as u8
}

/// Byte `k` (little-endian) of a `u16`.
pub open spec fn u16_byte(v: u16, k: u16) -> u8 {
    ((v >> (8 * k)) & 0xff) as u8
}

/// The `u16` stored for a matrix coefficient: its two's-complement `i16` truncation.
pub open spec fn coefficient_bits(v: i32) -> u16 {
    (v as i16) as u16
}

pub open spec fn magic() -> Seq<u8> {
    seq![0x52u8, 0x4cu8, 0x43u8, 0x31u8]
}

/// The first 24 bytes of the record of `c` (everything the checksum covers).
pub open spec fn encoded_body(c: CalibrationView) -> Seq<u8> {
    let m = c.matrix;
    magic() + seq![2u8, c.sensitivity, 0xe8u8, 0x03u8]
        + seq![
        u16_byte(coefficient_bits(m.m00), 0),
        u16_byte(coefficient_bits(m.m00), 1),
        u16_byte(coefficient_bits(m.m01), 0),
        u16_byte(coefficient_bits(m.m01), 1),
        u16_byte(coefficient_bits(m.m10), 0),
        u16_byte(coefficient_bits(m.m10), 1),
        u16_byte(coefficient_bits(m.m11), 0),
        u16_byte(coefficient_bits(m.m11), 1),
    ] + seq![
        u16_byte(c.gains[0], 0),
        u16_byte(c.gains[0], 1),
        u16_byte(c.gains[1], 0),
        u16_byte(c.gains[1], 1),
        u16_byte(c.gains[2], 0),
        u16_byte(c.gains[2], 1),
        u16_byte(c.gains[3], 0),
        u16_byte(c.gains[3], 1),
    ]
}

/// The 28-byte record of `c` (version 2).
pub open spec fn encoded(c: CalibrationView) -> Seq<u8> {
    let hash = fnv1a(FNV_OFFSET_BASIS, encoded_body(c));
    encoded_body(c) + seq![u32_byte(hash, 0), u32_byte(hash, 1), u32_byte(hash, 2), u32_byte(hash, 3)]
}

/// The matrix stored in a version-1 record (four i32 LE at 8..24).
pub open spec fn legacy_matrix(b: Seq<u8>) -> MatrixCoefficients {
    MatrixCoefficients {
        m00: le_u32(b[8], b[9], b[10], b[11]) as i32,
        m01: le_u32(b[12], b[13], b[14], b[15]) as i32,
        m10: le_u32(b[16], b[17], b[18], b[19]) as i32,
        m11: le_u32(b[20], b[21], b[22], b[23]) as i32,
    }
}

/// The matrix stored in a version-2 record (four i16 LE at 8..16).
pub open spec fn compact_matrix(b: Seq<u8>) -> MatrixCoefficients {
    MatrixCoefficients {
        m00: (le_u16(b[8], b[9]) as i16) as i32,
        m01: (le_u16(b[10], b[11]) as i16) as i32,
        m10: (le_u16(b[12], b[13]) as i16) as i32,
        m11: (le_u16(b[14], b[15]) as i16) as i32,
    }
}

/// The gains stored in a version-2 record (four u16 LE at 16..24).
pub open spec fn stored_gains(b: Seq<u8>) -> Seq<u16> {
    seq![le_u16(b[16], b[17]), le_u16(b[18], b[19]), le_u16(b[20], b[21]), le_u16(b[22], b[23])]
}

/// Magic, unit field and checksum are intact.
pub open spec fn framing_is_intact(b: Seq<u8>) -> bool {
    &&& b.subrange(0, 4) == magic()
    &&& le_u16(b[6], b[7]) == 1000
    &&& le_u32(b[24], b[25], b[26], b[27]) == fnv1a(FNV_OFFSET_BASIS, b.subrange(0, 24))
}

/// What a 28-byte record decodes to: `None` for a damaged, unknown or unsafe record.
pub open spec fn decoded(b: Seq<u8>) -> Option<CalibrationView> {
    if !framing_is_intact(b) {
        None
    } else if b[4] == 1 && b[5] == 0 {
        let c = CalibrationView { matrix: legacy_matrix(b), ..default_calibration() };
        if matrix_is_safe(c.matrix) { Some(c) } else { None }
    } else if b[4] == 2 && 50 <= b[5] <= 150 {
        let gains = stored_gains(b);
        if exists|i: int| 0 <= i < 4 && !(500 <= #[trigger] gains[i] <= 2000) {
            None
        } else {
            let c = CalibrationView { matrix: compact_matrix(b), gains, sensitivity: b[5] };
            if matrix_is_safe(c.matrix) { Some(c) } else { None }
        }
    } else {
        None
    }
}

// ---------------------------------------------------------------------------
// Executable codec.
// ---------------------------------------------------------------------------

/// FNV-1a (32-bit) of `bytes`.
pub fn checksum(bytes: &[u8]) -> (r: u32)
    ensures
        r == fnv1a(FNV_OFFSET_BASIS, bytes@),
{
    checksum_from(FNV_OFFSET_BASIS, bytes)
}

/// FNV-1a (32-bit) of `bytes`, continuing from `hash`.
pub fn checksum_from(hash: u32, bytes: &[u8]) -> (r: u32)
    ensures
        r == fnv1a(hash, bytes@),
{
    let r = checksum_prefix(hash, bytes, bytes.len());
    proof {
        assert(bytes@.subrange(0, bytes@.len() as int) =~= bytes@);
    }
    r
}

/// FNV-1a of the first `end` bytes.
fn checksum_prefix(hash: u32, bytes: &[u8], end: usize) -> (r: u32)
    requires
        end <= bytes@.len(),
    ensures
        r == fnv1a(hash, bytes@.subrange(0, end as int)),
{
    let mut h = hash;
    let mut i: usize = 0;
    while i < end
        invariant
            i <= end <= bytes@.len(),
            h == fnv1a(hash, bytes@.subrange(0, i as int)),
        decreases end - i,
    {
        proof {
            assert(bytes@.subrange(0, i + 1).drop_last() =~= bytes@.subrange(0, i as int));
        }
        h = (h ^ bytes[i] as u32).wrapping_mul(0x0100_0193);
        i = i + 1;
    }
    h
}

fn read_u16(blob: &[u8; 28], i: usize) -> (r: u16)
    requires
        i + 1 < 28,
    ensures
        r == le_u16(blob@[i as int], blob@[i + 1]),
{
    (blob[i] as u16) | ((blob[i + 1] as u16) << 8)
}

fn read_u32(blob: &[u8; 28], i: usize) -> (r: u32)
    requires
        i + 3 < 28,
    ensures
        r == le_u32(blob@[i as int], blob@[i + 1], blob@[i + 2], blob@[i + 3]),
{
    (blob[i] as u32) | ((blob[i + 1] as u32) << 8) | ((blob[i + 2] as u32) << 16) | ((blob[i + 3] as u32) << 24)
}

/// Decodes a calibration record; `None` for a damaged, unknown or unsafe one.
pub fn decode_blob(blob: &[u8; 28]) -> (r: Option<Calibration>)
    ensures
        r is None <==> decoded(blob@) is None,
        r matches Some(c) ==> decoded(blob@) == Some(c@),
{
    let body = checksum_prefix(FNV_OFFSET_BASIS, blob.as_slice(), 24);
    proof {
        assert(blob@.subrange(0, 4) =~= seq![blob@[0], blob@[1], blob@[2], blob@[3]]);
    }
    if !(blob[0] == 0x52 && blob[1] == 0x4c && blob[2] == 0x43 && blob[3] == 0x31) || read_u16(blob, 6) != 1000
        || read_u32(blob, 24) != body {
        proof {
            if blob@.subrange(0, 4) == magic() {
                assert(blob@.subrange(0, 4)[0] == 0x52u8);
                assert(blob@.subrange(0, 4)[1] == 0x4cu8);
                assert(blob@.subrange(0, 4)[2] == 0x43u8);
                assert(blob@.subrange(0, 4)[3] == 0x31u8);
            }
        }
        return None;
    }
    proof {
        assert(blob@.subrange(0, 4) =~= magic());
    }
    let mut config = Calibration::default();
    let values: [i32; 4];
    if blob[4] == 1 && blob[5] == 0 {
        values = [read_u32(blob, 8) as i32, read_u32(blob, 12) as i32, read_u32(blob, 16) as i32, read_u32(blob, 20) as i32];
    } else if blob[4] == 2 && 50 <= blob[5] && blob[5] <= 150 {
        config.sensitivity = blob[5];
        config.gains = [read_u16(blob, 16), read_u16(blob, 18), read_u16(blob, 20), read_u16(blob, 22)];
        let g = config.gains;
        proof {
            assert(g@ =~= stored_gains(blob@));
        }
        if !(500 <= g[0] && g[0] <= 2000 && 500 <= g[1] && g[1] <= 2000 && 500 <= g[2] && g[2] <= 2000
            && 500 <= g[3] && g[3] <= 2000) {
            proof {
                let gs = stored_gains(blob@);
                if !(500 <= g[0] && g[0] <= 2000) {
                    assert(!(500 <= gs[0] <= 2000));
                } else if !(500 <= g[1] && g[1] <= 2000) {
                    assert(!(500 <= gs[1] <= 2000));
                } else if !(500 <= g[2] && g[2] <= 2000) {
                    assert(!(500 <= gs[2] <= 2000));
                } else {
                    assert(!(500 <= gs[3] <= 2000));
                }
            }
            return None;
        }
        values = [
            read_u16(blob, 8) as i16 as i32,
            read_u16(blob, 10) as i16 as i32,
            read_u16(blob, 12) as i16 as i32,
            read_u16(blob, 14) as i16 as i32,
        ];
    } else {
        return None;
    }
    config.matrix = MatrixCoefficients { m00: values[0], m01: values[1], m10: values[2], m11: values[3] };
    if config.matrix.is_safe() {
        proof {
            assert(config@.gains =~= decoded(blob@)->0.gains);
        }
        Some(config)
    } else {
        None
    }
}

fn u16_bytes(v: u16) -> (r: (u8, u8))
    ensures
        r.0 == u16_byte(v, 0),
        r.1 == u16_byte(v, 1),
{
    proof {
        assert(v >> 0u16 == v) by (bit_vector);
        assert(v >> 8u16 & 0xff == v >> 8u16) by (bit_vector);
    }
    ((v & 0xff) as u8, (v >> 8) as u8)
}

fn u32_bytes(v: u32) -> (r: (u8, u8, u8, u8))
    ensures
        r.0 == u32_byte(v, 0),
        r.1 == u32_byte(v, 1),
        r.2 == u32_byte(v, 2),
        r.3 == u32_byte(v, 3),
{
    proof {
        assert(v >> 0u32 == v) by (bit_vector);
        assert(v >> 24u32 & 0xff == v >> 24u32) by (bit_vector);
    }
    ((v & 0xff) as u8, ((v >> 8) & 0xff) as u8, ((v >> 16) & 0xff) as u8, (v >> 24) as u8)
}

/// Encodes a calibration as a version-2 record.
pub fn encode_blob(config: Calibration) -> (r: [u8; 28])
    ensures
        r@ == encoded(config@),
{
    let (a0, a1) = u16_bytes(config.matrix.m00 as i16 as u16);
    let (b0, b1) = u16_bytes(config.matrix.m01 as i16 as u16);
    let (c0, c1) = u16_bytes(config.matrix.m10 as i16 as u16);
    let (d0, d1) = u16_bytes(config.matrix.m11 as i16 as u16);
    let (e0, e1) = u16_bytes(config.gains[0]);
    let (f0, f1) = u16_bytes(config.gains[1]);
    let (g0, g1) = u16_bytes(config.gains[2]);
    let (h0, h1) = u16_bytes(config.gains[3]);
    let body: [u8; 24] = [
        0x52, 0x4c, 0x43, 0x31, 2, config.sensitivity, 0xe8, 0x03,
        a0, a1, b0, b1, c0, c1, d0, d1, e0, e1, f0, f1, g0, g1, h0, h1,
    ];
    proof {
        assert(body@ =~= encoded_body(config@));
    }
    let hash = checksum(body.as_slice());
    let (k0, k1, k2, k3) = u32_bytes(hash);
    let blob: [u8; 28] = [
        0x52, 0x4c, 0x43, 0x31, 2, config.sensitivity, 0xe8, 0x03,
        a0, a1, b0, b1, c0, c1, d0, d1, e0, e1, f0, f1, g0, g1, h0, h1, k0, k1, k2, k3,
    ];
    proof {
        assert(blob@ =~= encoded(config@));
    }
    blob
}

// ---------------------------------------------------------------------------
// Laws of the record format.
// ---------------------------------------------------------------------------

proof fn lemma_u16_round_trip(v: u16)
    ensures
        le_u16(u16_byte(v, 0), u16_byte(v, 1)) == v,
{
    assert(((((v >> 0u16) & 0xff) as u8) as u16 | (((((v >> 8u16) & 0xff) as u8) as u16) << 8u16)) == v)
        by (bit_vector);
}

proof fn lemma_u32_round_trip(v: u32)
    ensures
        le_u32(u32_byte(v, 0), u32_byte(v, 1), u32_byte(v, 2), u32_byte(v, 3)) == v,
{
    assert(((((v >> 0u32) & 0xff) as u8) as u32 | (((((v >> 8u32) & 0xff) as u8) as u32) << 8u32) | (((((v
        >> 16u32) & 0xff) as u8) as u32) << 16u32) | (((((v >> 24u32) & 0xff) as u8) as u32) << 24u32)) == v)
        by (bit_vector);
}

proof fn lemma_coefficient_round_trip(v: i32)
    requires
        -32768 <= v <= 32767,
    ensures
        (le_u16(u16_byte(coefficient_bits(v), 0), u16_byte(coefficient_bits(v), 1)) as i16) as i32 == v,
{
    lemma_u16_round_trip(coefficient_bits(v));
    assert(-32768 <= v <= 32767 ==> ((v as i16) as u16) as i16 as i32 == v) by (bit_vector);
}

/// Every valid calibration survives its record: decoding what `encode_blob` writes gives it back.
pub proof fn law_record_round_trip(c: CalibrationView)
    requires
        calibration_is_valid(c),
    ensures
        decoded(encoded(c)) == Some(c),
{
    let b = encoded(c);
    let body = encoded_body(c);
    let hash = fnv1a(FNV_OFFSET_BASIS, body);
    assert(b.subrange(0, 24) =~= body);
    assert(b.subrange(0, 4) =~= magic());
    assert(le_u16(0xe8u8, 0x03u8) == 1000) by (bit_vector);
    lemma_u32_round_trip(hash);
    assert(framing_is_intact(b));
    lemma_u16_round_trip(c.gains[0]);
    lemma_u16_round_trip(c.gains[1]);
    lemma_u16_round_trip(c.gains[2]);
    lemma_u16_round_trip(c.gains[3]);
    assert(stored_gains(b) =~= c.gains);
    assert(500 <= c.gains[0] <= 2000 && 500 <= c.gains[1] <= 2000);
    assert(500 <= c.gains[2] <= 2000 && 500 <= c.gains[3] <= 2000);
    lemma_coefficient_round_trip(c.matrix.m00);
    lemma_coefficient_round_trip(c.matrix.m01);
    lemma_coefficient_round_trip(c.matrix.m10);
    lemma_coefficient_round_trip(c.matrix.m11);
    assert(compact_matrix(b) == c.matrix);
}

/// Whatever a record decodes to is a valid calibration: corrupt, near-singular and excessively
/// large matrices, and out-of-range gains or sensitivities, are never accepted.
pub proof fn law_decoded_is_valid(b: Seq<u8>)
    requires
        b.len() == 28,
        decoded(b) is Some,
    ensures
        calibration_is_valid(decoded(b)->0),
{
    let c = decoded(b)->0;
    if b[4] == 2 {
        assert forall|i: int| 0 <= i < 4 implies 500 <= #[trigger] c.gains[i] <= 2000 by {
            assert(!(0 <= i < 4 && !(500 <= stored_gains(b)[i] <= 2000)));
        }
    } else {
        assert forall|i: int| 0 <= i < 4 implies 500 <= #[trigger] c.gains[i] <= 2000 by {
        }
    }
}

} // verus!
