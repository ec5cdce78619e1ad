//! Validation and replay of an exported rotary log.
//!
//! A log is a `BEGIN,1,<trigger>,<count>,<dropped>,32768` line, the column header, `count`
//! rows and an `END,<count>,<fnv1a>` line whose checksum covers the header and the rows (each
//! with its newline). Every row is replayed through the decoder from its recorded
//! before-state and must reproduce the recorded after-state, evidence, decision source and
//! output; consecutive rows must chain (the before-state of a row is the after-state of the
//! previous one), be numbered without gaps and carry non-decreasing timestamps.
use vstd::prelude::*;
use vstd::string::StringSliceAdditionalSpecFns;
use crate::calibration_data::{fnv1a, FNV_OFFSET_BASIS};
use crate::log_text::{
    fields_of, lines_of, parse_signed, parse_signed_range, parse_unsigned, parse_unsigned_range, range_equals,
    ranges_view, ranges_within, split_fields, split_lines, NEWLINE,
};
use crate::rotary_decoder::Detent;
use crate::rotary_log::{
    checksum, decimal, direction, direction_code, push_decimal, push_signed, signed_decimal, source,
    source_letter, source_letter_byte, HEADER,
};
use crate::rotary_sampled_decoder::{
    initial_state, sample_step, update_in_range, ClockedDetentDecoder, DecisionSource, DecoderState,
    CLEAR_CANCEL, CLEAR_CONFIRM, CLEAR_IDLE,
};
use crate::rotary_trace::SAMPLE_CAPACITY;

verus! {

/// First field of the opening line: `BEGIN`.
pub const BEGIN_TAG: [u8; 5] = [0x42, 0x45, 0x47, 0x49, 0x4e];
/// Log format version: `1`.
pub const FORMAT_VERSION: [u8; 1] = [0x31];
/// Sample clock of the capture in Hz: `32768`.
pub const SAMPLE_RATE: [u8; 5] = [0x33, 0x32, 0x37, 0x36, 0x38];
/// First field of the closing line: `END`.
pub const END_TAG: [u8; 3] = [0x45, 0x4e, 0x44];

/// Why a log was rejected; a row is given by its index among the rows.
#[derive(Clone, Copy, Debug, PartialEq, Eq, Structural)]
pub enum ReplayError {
    IncompleteLog,
    UnsupportedBegin,
    InvalidCount,
    InvalidDropped,
    CountOrHeaderMismatch,
    MissingEnd,
    InvalidChecksum,
    ChecksumMismatch,
    WrongColumnCount(usize),
    BadSampleNumber,
    BadTimestamp,
    SequenceGap(usize),
    InvalidDirection,
    InvalidBool,
    InvalidNumber,
    InvalidState,
    BeforeStateMismatch(usize),
    InvalidA,
    InvalidB,
    ReplayMismatch(usize),
    NoConfirmationAtEnd,
}

/// A log that replayed: its row count, the samples dropped before it, the source letter and
/// output of its last row, and how many rows cleared evidence by a confirmation, a cancelled
/// glitch and idle contacts.
#[derive(Debug)]
pub struct Report {
    pub count: usize,
    pub dropped: u64,
    pub final_source: &'static str,
    pub final_output: i8,
    pub clear_counts: [usize; 3],
}

/// What one replayed row produced.
#[derive(Clone, Copy, Debug, PartialEq, Eq, Structural)]
pub struct RowOutcome {
    pub state: DecoderState,
    pub ticks: u64,
    pub clears: u8,
    pub source: Option<DecisionSource>,
    pub output: Option<Detent>,
}

/// The replay so far: the decoder state and timestamp of the last row, the clear counts, and
/// the decision source and output of the last row.
pub struct ReplayProgress {
    pub state: DecoderState,
    pub prior_ticks: u64,
    pub confirm_clears: nat,
    pub cancel_clears: nat,
    pub idle_clears: nat,
    pub last_source: Option<DecisionSource>,
    pub last_output: Option<Detent>,
}

/// A replayed log, in the terms of [`Report`].
pub struct ReplaySummary {
    pub count: nat,
    pub dropped: nat,
    pub progress: ReplayProgress,
}

pub open spec fn bool_field(f: Seq<u8>) -> Option<bool> {
    if f == seq![0x30u8] {
        Some(false)
    } else if f == seq![0x31u8] {
        Some(true)
    } else {
        None
    }
}

/// `0`, `1` and `-1` for no direction, clockwise and counter-clockwise.
pub open spec fn direction_field(f: Seq<u8>) -> Option<Option<Detent>> {
    if f == seq![0x30u8] {
        Some(None)
    } else if f == seq![0x31u8] {
        Some(Some(Detent::Clockwise))
    } else if f == seq![0x2du8, 0x31u8] {
        Some(Some(Detent::CounterClockwise))
    } else {
        None
    }
}

pub open spec fn u8_field(f: Seq<u8>) -> Option<nat> {
    parse_unsigned(f, 10, u8::MAX as nat)
}

pub open spec fn i32_field(f: Seq<u8>) -> Option<int> {
    parse_signed(f, 0x8000_0000, i32::MAX as nat)
}

pub open spec fn u64_field(f: Seq<u8>) -> Option<nat> {
    parse_unsigned(f, 10, u64::MAX as nat)
}

pub open spec fn usize_field(f: Seq<u8>) -> Option<nat> {
    parse_unsigned(f, 10, usize::MAX as nat)
}

/// The decoder state in the nine fields `g`, checked in the order the fields are read:
/// the direction, the two A levels, the run, A/B state and idle counts, the tracking flag,
/// the two movements, and finally that the A/B state is a 2-bit value.
pub open spec fn parse_state_fields(g: Seq<Seq<u8>>) -> Result<DecoderState, ReplayError> {
    if direction_field(g[8]) is None {
        Err(ReplayError::InvalidDirection)
    } else if bool_field(g[0]) is None || bool_field(g[1]) is None {
        Err(ReplayError::InvalidBool)
    } else if u8_field(g[2]) is None || u8_field(g[3]) is None || u8_field(g[4]) is None {
        Err(ReplayError::InvalidNumber)
    } else if bool_field(g[5]) is None {
        Err(ReplayError::InvalidBool)
    } else if i32_field(g[6]) is None || i32_field(g[7]) is None {
        Err(ReplayError::InvalidNumber)
    } else if u8_field(g[3])->0 > 3 {
        Err(ReplayError::InvalidState)
    } else {
        Ok(
            DecoderState {
                stable_a: bool_field(g[0])->0,
                candidate_a: bool_field(g[1])->0,
                run_a: u8_field(g[2])->0 as u8,
                previous_state: u8_field(g[3])->0 as u8,
                unchanged_samples: u8_field(g[4])->0 as u8,
                tracking_a_edge: bool_field(g[5])->0,
                edge_movement: i32_field(g[6])->0 as i32,
                interval_movement: i32_field(g[7])->0 as i32,
                last_direction: direction_field(g[8])->0,
            },
        )
    }
}

/// Replays the row with fields `f`, the row at `index`, after a replay that ended in decoder
/// state `state` at timestamp `prior_ticks`. `None` where the sample number or the decoder's
/// movement sums would overflow.
pub open spec fn row_step(f: Seq<Seq<u8>>, index: nat, dropped: nat, state: DecoderState, prior_ticks: u64) -> Option<
    Result<RowOutcome, ReplayError>,
> {
    if f.len() != 28 {
        Some(Err(ReplayError::WrongColumnCount(index as usize)))
    } else if u64_field(f[0]) is None {
        Some(Err(ReplayError::BadSampleNumber))
    } else if u64_field(f[1]) is None {
        Some(Err(ReplayError::BadTimestamp))
    } else if dropped + index + 1 > u64::MAX {
        None
    } else if u64_field(f[0])->0 != dropped + index + 1 || u64_field(f[1])->0 < prior_ticks {
        Some(Err(ReplayError::SequenceGap(index as usize)))
    } else {
        match parse_state_fields(f.subrange(4, 13)) {
            Err(e) => Some(Err(e)),
            Ok(before) => match parse_state_fields(f.subrange(13, 22)) {
                Err(e) => Some(Err(e)),
                Ok(after) => {
                    if index > 0 && state != before {
                        Some(Err(ReplayError::BeforeStateMismatch(index as usize)))
                    } else if bool_field(f[2]) is None {
                        Some(Err(ReplayError::InvalidA))
                    } else if bool_field(f[3]) is None {
                        Some(Err(ReplayError::InvalidB))
                    } else if !update_in_range(before, bool_field(f[2])->0, bool_field(f[3])->0) {
                        None
                    } else {
                        let (s, e, d, out) = sample_step(before, bool_field(f[2])->0, bool_field(f[3])->0);
                        let src = match d {
                            Some(dec) => Some(dec.source),
                            None => None,
                        };
                        if s != after || f[22] != signed_decimal(e.delta as int) || f[23] != signed_decimal(
                            e.edge_before_clear as int,
                        ) || f[24] != signed_decimal(e.interval_before_clear as int) || f[25] != decimal(
                            e.clears as nat,
                        ) || f[26] != seq![source_letter(src)] || f[27] != signed_decimal(
                            direction_code(out) as int,
                        ) {
                            Some(Err(ReplayError::ReplayMismatch(index as usize)))
                        } else {
                            Some(
                                Ok(
                                    RowOutcome {
                                        state: s,
                                        ticks: u64_field(f[1])->0 as u64,
                                        clears: e.clears,
                                        source: src,
                                        output: out,
                                    },
                                ),
                            )
                        }
                    }
                },
            },
        }
    }
}

pub open spec fn clear_bit(clears: u8, bit: u8) -> nat {
    if clears & bit != 0 {
        1
    } else {
        0
    }
}

pub open spec fn advance(p: ReplayProgress, o: RowOutcome) -> ReplayProgress {
    ReplayProgress {
        state: o.state,
        prior_ticks: o.ticks,
        confirm_clears: p.confirm_clears + clear_bit(o.clears, CLEAR_CONFIRM),
        cancel_clears: p.cancel_clears + clear_bit(o.clears, CLEAR_CANCEL),
        idle_clears: p.idle_clears + clear_bit(o.clears, CLEAR_IDLE),
        last_source: o.source,
        last_output: o.output,
    }
}

pub open spec fn start_progress() -> ReplayProgress {
    ReplayProgress {
        state: initial_state(false, false),
        prior_ticks: 0,
        confirm_clears: 0,
        cancel_clears: 0,
        idle_clears: 0,
        last_source: None,
        last_output: None,
    }
}

/// Replays `rows[index..]` after the progress `p`; the first error or overflow stops it.
pub open spec fn replay_rows(rows: Seq<Seq<u8>>, dropped: nat, index: nat, p: ReplayProgress) -> Option<
    Result<ReplayProgress, ReplayError>,
>
    decreases rows.len() - index,
{
    if index >= rows.len() {
        Some(Ok(p))
    } else {
        match row_step(fields_of(rows[index as int]), index, dropped, p.state, p.prior_ticks) {
            None => None,
            Some(Err(e)) => Some(Err(e)),
            Some(Ok(o)) => replay_rows(rows, dropped, index + 1, advance(p, o)),
        }
    }
}

/// FNV-1a over the lines `ls`, each followed by a newline.
pub open spec fn lines_checksum(ls: Seq<Seq<u8>>) -> u32
    decreases ls.len(),
{
    if ls.len() == 0 {
        FNV_OFFSET_BASIS
    } else {
        fnv1a(fnv1a(lines_checksum(ls.drop_last()), ls.last()), seq![NEWLINE])
    }
}

/// The outcome of a log whose rows replayed to `rows`: the last row must hold a decision.
pub open spec fn conclude(rows: Option<Result<ReplayProgress, ReplayError>>, count: nat, dropped: nat) -> Option<
    Result<ReplaySummary, ReplayError>,
> {
    match rows {
        None => None,
        Some(Err(e)) => Some(Err(e)),
        Some(Ok(p)) => if p.last_source is None {
            Some(Err(ReplayError::NoConfirmationAtEnd))
        } else {
            Some(Ok(ReplaySummary { count, dropped, progress: p }))
        },
    }
}

/// The outcome of validating the log `t`, the checks in the order they are made; `None` where
/// the replay would overflow (see [`row_step`]).
pub open spec fn replay_spec(t: Seq<u8>) -> Option<Result<ReplaySummary, ReplayError>> {
    let lines = lines_of(t);
    if lines.len() < 4 {
        Some(Err(ReplayError::IncompleteLog))
    } else {
        let begin = fields_of(lines[0]);
        if begin.len() != 6 || begin[0] != BEGIN_TAG@ || begin[1] != FORMAT_VERSION@ || begin[5] != SAMPLE_RATE@ {
            Some(Err(ReplayError::UnsupportedBegin))
        } else if usize_field(begin[3]) is None {
            Some(Err(ReplayError::InvalidCount))
        } else if u64_field(begin[4]) is None {
            Some(Err(ReplayError::InvalidDropped))
        } else {
            let count = usize_field(begin[3])->0;
            let dropped = u64_field(begin[4])->0;
            let end = fields_of(lines.last());
            if count == 0 || count > SAMPLE_CAPACITY || lines.len() != count + 3 || lines[1] != HEADER.spec_bytes() {
                Some(Err(ReplayError::CountOrHeaderMismatch))
            } else if end.len() != 3 || end[0] != END_TAG@ || usize_field(end[1]) != Some(count) {
                Some(Err(ReplayError::MissingEnd))
            } else if parse_unsigned(end[2], 16, u32::MAX as nat) is None {
                Some(Err(ReplayError::InvalidChecksum))
            } else if lines_checksum(lines.subrange(1, lines.len() - 1)) != parse_unsigned(end[2], 16, u32::MAX as nat)->0 {
                Some(Err(ReplayError::ChecksumMismatch))
            } else {
                conclude(replay_rows(lines.subrange(2, count + 2 as int), dropped, 0, start_progress()), count, dropped)
            }
        }
    }
}

/// `rep` reports the replayed log `s`.
pub open spec fn reports(rep: Report, s: ReplaySummary) -> bool {
    &&& rep.count == s.count
    &&& rep.dropped == s.dropped
    &&& rep.final_source@ == seq![source_letter(s.progress.last_source) as char]
    &&& rep.final_output == direction_code(s.progress.last_output)
    &&& rep.clear_counts@ == seq![
        s.progress.confirm_clears as usize,
        s.progress.cancel_clears as usize,
        s.progress.idle_clears as usize,
    ]
}

fn bool_at(bytes: &[u8], range: (usize, usize)) -> (r: Option<bool>)
    requires
        range.0 <= range.1 <= bytes@.len(),
    ensures
        r == bool_field(bytes@.subrange(range.0 as int, range.1 as int)),
{
    let zero: [u8; 1] = [0x30];
    let one: [u8; 1] = [0x31];
    proof {
        assert(zero@ =~= seq![0x30u8]);
        assert(one@ =~= seq![0x31u8]);
    }
    if range_equals(bytes, range.0, range.1, &zero) {
        Some(false)
    } else if range_equals(bytes, range.0, range.1, &one) {
        Some(true)
    } else {
        None
    }
}

fn direction_at(bytes: &[u8], range: (usize, usize)) -> (r: Option<Option<Detent>>)
    requires
        range.0 <= range.1 <= bytes@.len(),
    ensures
        r == direction_field(bytes@.subrange(range.0 as int, range.1 as int)),
{
    let zero: [u8; 1] = [0x30];
    let one: [u8; 1] = [0x31];
    let minus_one: [u8; 2] = [0x2d, 0x31];
    proof {
        assert(zero@ =~= seq![0x30u8]);
        assert(one@ =~= seq![0x31u8]);
        assert(minus_one@ =~= seq![0x2du8, 0x31u8]);
    }
    if range_equals(bytes, range.0, range.1, &zero) {
        Some(None)
    } else if range_equals(bytes, range.0, range.1, &one) {
        Some(Some(Detent::Clockwise))
    } else if range_equals(bytes, range.0, range.1, &minus_one) {
        Some(Some(Detent::CounterClockwise))
    } else {
        None
    }
}

fn u8_at(bytes: &[u8], range: (usize, usize)) -> (r: Option<u8>)
    requires
        range.0 <= range.1 <= bytes@.len(),
    ensures
        match u8_field(bytes@.subrange(range.0 as int, range.1 as int)) {
            Some(v) => r == Some(v as u8),
            None => r is None,
        },
{
    match parse_unsigned_range(bytes, range.0, range.1, 10, u8::MAX as u64) {
        Some(v) => Some(v as u8),
        None => None,
    }
}

fn i32_at(bytes: &[u8], range: (usize, usize)) -> (r: Option<i32>)
    requires
        range.0 <= range.1 <= bytes@.len(),
    ensures
        match i32_field(bytes@.subrange(range.0 as int, range.1 as int)) {
            Some(v) => r == Some(v as i32),
            None => r is None,
        },
{
    match parse_signed_range(bytes, range.0, range.1, 0x8000_0000, i32::MAX as u64) {
        Some(v) => Some(v as i32),
        None => None,
    }
}

/// Whether the field `range` holds the decimal text of `v`.
fn field_is_signed(bytes: &[u8], range: (usize, usize), v: i64) -> (r: bool)
    requires
        range.0 <= range.1 <= bytes@.len(),
    ensures
        r == (bytes@.subrange(range.0 as int, range.1 as int) == signed_decimal(v as int)),
{
    let mut text: Vec<u8> = Vec::new();
    push_signed(&mut text, v);
    proof {
        assert(text@ =~= signed_decimal(v as int));
    }
    range_equals(bytes, range.0, range.1, text.as_slice())
}

/// Whether the field `range` holds the decimal text of `v`.
fn field_is_unsigned(bytes: &[u8], range: (usize, usize), v: u64) -> (r: bool)
    requires
        range.0 <= range.1 <= bytes@.len(),
    ensures
        r == (bytes@.subrange(range.0 as int, range.1 as int) == decimal(v as nat)),
{
    let mut text: Vec<u8> = Vec::new();
    push_decimal(&mut text, v);
    proof {
        assert(text@ =~= decimal(v as nat));
    }
    range_equals(bytes, range.0, range.1, text.as_slice())
}

/// The decoder state in the nine fields from `offset` (see [`parse_state_fields`]).
fn parse_state(bytes: &[u8], fields: &Vec<(usize, usize)>, offset: usize) -> (r: Result<DecoderState, ReplayError>)
    requires
        offset + 9 <= fields@.len(),
        ranges_within(fields@, bytes@.len() as int),
    ensures
        r == parse_state_fields(ranges_view(bytes@, fields@).subrange(offset as int, offset + 9)),
{
    let ghost g = ranges_view(bytes@, fields@).subrange(offset as int, offset + 9);
    let field_count = fields.len();
    assert(offset + 8 < field_count);
    proof {
        assert forall|k: int| 0 <= k < 9 implies #[trigger] g[k] == bytes@.subrange(
            fields@[offset + k].0 as int,
            fields@[offset + k].1 as int,
        ) && fields@[offset + k].0 <= fields@[offset + k].1 <= bytes@.len() by {
            assert(fields@[offset + k].0 <= fields@[offset + k].1 <= bytes@.len());
        }
    }
    let last_direction = match direction_at(bytes, fields[offset + 8]) {
        None => return Err(ReplayError::InvalidDirection),
        Some(d) => d,
    };
    let stable_a = match bool_at(bytes, fields[offset]) {
        None => return Err(ReplayError::InvalidBool),
        Some(v) => v,
    };
    let candidate_a = match bool_at(bytes, fields[offset + 1]) {
        None => return Err(ReplayError::InvalidBool),
        Some(v) => v,
    };
    let run_a = match u8_at(bytes, fields[offset + 2]) {
        None => return Err(ReplayError::InvalidNumber),
        Some(v) => v,
    };
    let previous_state = match u8_at(bytes, fields[offset + 3]) {
        None => return Err(ReplayError::InvalidNumber),
        Some(v) => v,
    };
    let unchanged_samples = match u8_at(bytes, fields[offset + 4]) {
        None => return Err(ReplayError::InvalidNumber),
        Some(v) => v,
    };
    let tracking_a_edge = match bool_at(bytes, fields[offset + 5]) {
        None => return Err(ReplayError::InvalidBool),
        Some(v) => v,
    };
    let edge_movement = match i32_at(bytes, fields[offset + 6]) {
        None => return Err(ReplayError::InvalidNumber),
        Some(v) => v,
    };
    let interval_movement = match i32_at(bytes, fields[offset + 7]) {
        None => return Err(ReplayError::InvalidNumber),
        Some(v) => v,
    };
    if previous_state > 3 {
        return Err(ReplayError::InvalidState);
    }
    Ok(
        DecoderState {
            stable_a,
            candidate_a,
            run_a,
            previous_state,
            unchanged_samples,
            tracking_a_edge,
            edge_movement,
            interval_movement,
            last_direction,
        },
    )
}

/// Replays one row (see [`row_step`]): the decoder resumes from the row's before-state.
fn replay_row(
    bytes: &[u8],
    line: (usize, usize),
    index: usize,
    dropped: u64,
    state: DecoderState,
    prior_ticks: u64,
) -> (r: Option<Result<RowOutcome, ReplayError>>)
    requires
        line.0 <= line.1 <= bytes@.len(),
    ensures
        r == row_step(
            fields_of(bytes@.subrange(line.0 as int, line.1 as int)),
            index as nat,
            dropped as nat,
            state,
            prior_ticks,
        ),
{
    let fields = split_fields(bytes, line.0, line.1);
    let ghost f = ranges_view(bytes@, fields@);
    if fields.len() != 28 {
        return Some(Err(ReplayError::WrongColumnCount(index)));
    }
    proof {
        assert forall|k: int| 0 <= k < 28 implies #[trigger] f[k] == bytes@.subrange(
            fields@[k].0 as int,
            fields@[k].1 as int,
        ) && fields@[k].0 <= fields@[k].1 <= bytes@.len() by {
            assert(fields@[k].0 <= fields@[k].1 <= bytes@.len());
        }
    }
    let number = match parse_unsigned_range(bytes, fields[0].0, fields[0].1, 10, u64::MAX) {
        None => return Some(Err(ReplayError::BadSampleNumber)),
        Some(v) => v,
    };
    let ticks = match parse_unsigned_range(bytes, fields[1].0, fields[1].1, 10, u64::MAX) {
        None => return Some(Err(ReplayError::BadTimestamp)),
        Some(v) => v,
    };
    if dropped as u128 + index as u128 + 1 > u64::MAX as u128 {
        return None;
    }
    if number != dropped + index as u64 + 1 || ticks < prior_ticks {
        return Some(Err(ReplayError::SequenceGap(index)));
    }
    let before = match parse_state(bytes, &fields, 4) {
        Err(e) => return Some(Err(e)),
        Ok(s) => s,
    };
    let after = match parse_state(bytes, &fields, 13) {
        Err(e) => return Some(Err(e)),
        Ok(s) => s,
    };
    if index > 0 && state != before {
        return Some(Err(ReplayError::BeforeStateMismatch(index)));
    }
    let a = match bool_at(bytes, fields[2]) {
        None => return Some(Err(ReplayError::InvalidA)),
        Some(v) => v,
    };
    let b = match bool_at(bytes, fields[3]) {
        None => return Some(Err(ReplayError::InvalidB)),
        Some(v) => v,
    };
    let mut decoder = ClockedDetentDecoder::from_state(before);
    if !decoder.accepts(a, b) {
        return None;
    }
    let output = decoder.update(a, b);
    let evidence = decoder.evidence();
    let decision = decoder.take_decision();
    let decision_source = match decision {
        Some(d) => Some(d.source),
        None => None,
    };
    let letter: [u8; 1] = [source_letter_byte(decision_source)];
    proof {
        assert(letter@ =~= seq![source_letter(decision_source)]);
    }
    if decoder.state() != after || !field_is_signed(bytes, fields[22], evidence.delta as i64)
        || !field_is_signed(bytes, fields[23], evidence.edge_before_clear as i64) || !field_is_signed(
        bytes,
        fields[24],
        evidence.interval_before_clear as i64,
    ) || !field_is_unsigned(bytes, fields[25], evidence.clears as u64) || !range_equals(
        bytes,
        fields[26].0,
        fields[26].1,
        &letter,
    ) || !field_is_signed(bytes, fields[27], direction(output) as i64) {
        return Some(Err(ReplayError::ReplayMismatch(index)));
    }
    Some(Ok(RowOutcome { state: decoder.state(), ticks, clears: evidence.clears, source: decision_source, output }))
}

/// Validates and replays the log `text` (see [`replay_spec`]); `None` where a sample number or
/// a movement sum recorded in the log would overflow during the replay.
pub fn replay(text: &str) -> (r: Option<Result<Report, ReplayError>>)
    ensures
        match replay_spec(text.spec_bytes()) {
            None => r is None,
            Some(Err(e)) => r == Some(Err::<Report, ReplayError>(e)),
            Some(Ok(s)) => r matches Some(Ok(rep)) && reports(rep, s),
        },
{
    let bytes = text.as_bytes();
    let ghost t = bytes@;
    let lines = split_lines(bytes);
    let ghost ls = ranges_view(t, lines@);
    if lines.len() < 4 {
        return Some(Err(ReplayError::IncompleteLog));
    }
    proof {
        assert forall|k: int| 0 <= k < ls.len() implies #[trigger] ls[k] == t.subrange(
            lines@[k].0 as int,
            lines@[k].1 as int,
        ) && lines@[k].0 <= lines@[k].1 <= t.len() by {
            assert(lines@[k].0 <= lines@[k].1 <= t.len());
        }
    }
    let begin = split_fields(bytes, lines[0].0, lines[0].1);
    let ghost bf = ranges_view(t, begin@);
    if begin.len() != 6 {
        return Some(Err(ReplayError::UnsupportedBegin));
    }
    proof {
        assert forall|k: int| 0 <= k < 6 implies #[trigger] bf[k] == t.subrange(
            begin@[k].0 as int,
            begin@[k].1 as int,
        ) && begin@[k].0 <= begin@[k].1 <= t.len() by {
            assert(begin@[k].0 <= begin@[k].1 <= t.len());
        }
    }
    if !range_equals(bytes, begin[0].0, begin[0].1, &BEGIN_TAG) || !range_equals(
        bytes,
        begin[1].0,
        begin[1].1,
        &FORMAT_VERSION,
    ) || !range_equals(bytes, begin[5].0, begin[5].1, &SAMPLE_RATE) {
        return Some(Err(ReplayError::UnsupportedBegin));
    }
    let count = match parse_unsigned_range(bytes, begin[3].0, begin[3].1, 10, usize::MAX as u64) {
        None => return Some(Err(ReplayError::InvalidCount)),
        Some(v) => v as usize,
    };
    let dropped = match parse_unsigned_range(bytes, begin[4].0, begin[4].1, 10, u64::MAX) {
        None => return Some(Err(ReplayError::InvalidDropped)),
        Some(v) => v,
    };
    if count == 0 || count > SAMPLE_CAPACITY || lines.len() != count + 3 || !range_equals(
        bytes,
        lines[1].0,
        lines[1].1,
        text_bytes(HEADER),
    ) {
        return Some(Err(ReplayError::CountOrHeaderMismatch));
    }
    let last = lines.len() - 1;
    let end = split_fields(bytes, lines[last].0, lines[last].1);
    let ghost ef = ranges_view(t, end@);
    if end.len() != 3 {
        return Some(Err(ReplayError::MissingEnd));
    }
    proof {
        assert(ls.last() == ls[last as int]);
        assert forall|k: int| 0 <= k < 3 implies #[trigger] ef[k] == t.subrange(
            end@[k].0 as int,
            end@[k].1 as int,
        ) && end@[k].0 <= end@[k].1 <= t.len() by {
            assert(end@[k].0 <= end@[k].1 <= t.len());
        }
    }
    if !range_equals(bytes, end[0].0, end[0].1, &END_TAG) {
        return Some(Err(ReplayError::MissingEnd));
    }
    match parse_unsigned_range(bytes, end[1].0, end[1].1, 10, usize::MAX as u64) {
        Some(v) => {
            if v != count as u64 {
                return Some(Err(ReplayError::MissingEnd));
            }
        },
        None => {
            return Some(Err(ReplayError::MissingEnd));
        },
    }
    let expected = match parse_unsigned_range(bytes, end[2].0, end[2].1, 16, u32::MAX as u64) {
        None => return Some(Err(ReplayError::InvalidChecksum)),
        Some(v) => v as u32,
    };
    let hash = framed_checksum(bytes, &lines);
    if hash != expected {
        return Some(Err(ReplayError::ChecksumMismatch));
    }
    let ghost rows = ls.subrange(2, count + 2 as int);
    proof {
        assert(rows.len() == count);
    }
    let ghost mut p = start_progress();
    let mut state = ClockedDetentDecoder::new(false, false).state();
    let mut prior_ticks: u64 = 0;
    let mut confirm_clears: usize = 0;
    let mut cancel_clears: usize = 0;
    let mut idle_clears: usize = 0;
    let mut last_source: Option<DecisionSource> = None;
    let mut last_output: Option<Detent> = None;
    let mut index: usize = 0;
    while index < count
        invariant
            index <= count <= SAMPLE_CAPACITY,
            lines@.len() == count + 3,
            ls == ranges_view(t, lines@),
            t == bytes@,
            rows == ls.subrange(2, count + 2 as int),
            text.spec_bytes() == t,
            replay_spec(t) == conclude(replay_rows(rows, dropped as nat, 0, start_progress()), count as nat, dropped as nat),
            forall|k: int| 0 <= k < ls.len() ==> #[trigger] ls[k] == t.subrange(
                lines@[k].0 as int,
                lines@[k].1 as int,
            ) && lines@[k].0 <= lines@[k].1 <= t.len(),
            p.state == state,
            p.prior_ticks == prior_ticks,
            p.confirm_clears == confirm_clears,
            p.cancel_clears == cancel_clears,
            p.idle_clears == idle_clears,
            confirm_clears <= index,
            cancel_clears <= index,
            idle_clears <= index,
            p.last_source == last_source,
            p.last_output == last_output,
            replay_rows(rows, dropped as nat, index as nat, p) == replay_rows(
                rows,
                dropped as nat,
                0,
                start_progress(),
            ),
        decreases count - index,
    {
        let line = lines[index + 2];
        proof {
            assert(rows[index as int] == ls[index + 2]);
        }
        match replay_row(bytes, line, index, dropped, state, prior_ticks) {
            None => return None,
            Some(Err(e)) => return Some(Err(e)),
            Some(Ok(o)) => {
                proof {
                    p = advance(p, o);
                }
                state = o.state;
                prior_ticks = o.ticks;
                if o.clears & CLEAR_CONFIRM != 0 {
                    confirm_clears = confirm_clears + 1;
                }
                if o.clears & CLEAR_CANCEL != 0 {
                    cancel_clears = cancel_clears + 1;
                }
                if o.clears & CLEAR_IDLE != 0 {
                    idle_clears = idle_clears + 1;
                }
                last_source = o.source;
                last_output = o.output;
            },
        }
        index = index + 1;
    }
    match last_source {
        None => Some(Err(ReplayError::NoConfirmationAtEnd)),
        Some(s) => {
            let clear_counts: [usize; 3] = [confirm_clears, cancel_clears, idle_clears];
            proof {
                assert(clear_counts@ =~= seq![confirm_clears, cancel_clears, idle_clears]);
            }
            Some(
                Ok(
                    Report {
                        count,
                        dropped,
                        final_source: source(last_source),
                        final_output: direction(last_output),
                        clear_counts,
                    },
                ),
            )
        },
    }
}

/// The bytes of a text.
fn text_bytes(text: &str) -> (r: &[u8])
    ensures
        r@ == text.spec_bytes(),
{
    text.as_bytes()
}

/// FNV-1a over the lines between the first and the last, each followed by a newline.
fn framed_checksum(bytes: &[u8], lines: &Vec<(usize, usize)>) -> (r: u32)
    requires
        lines@.len() >= 2,
        ranges_within(lines@, bytes@.len() as int),
    ensures
        r == lines_checksum(ranges_view(bytes@, lines@).subrange(1, lines@.len() - 1)),
{
    let ghost ls = ranges_view(bytes@, lines@);
    let newline: [u8; 1] = [NEWLINE];
    proof {
        assert(newline@ =~= seq![NEWLINE]);
        assert(ls.subrange(1, 1) =~= Seq::<Seq<u8>>::empty());
    }
    let mut hash: u32 = FNV_OFFSET_BASIS;
    let mut i: usize = 1;
    let n = lines.len();
    while i < n - 1
        invariant
            n == lines@.len(),
            1 <= i <= n - 1,
            ranges_within(lines@, bytes@.len() as int),
            ls == ranges_view(bytes@, lines@),
            newline@ == seq![NEWLINE],
            hash == lines_checksum(ls.subrange(1, i as int)),
        decreases lines@.len() - i,
    {
        let line = lines[i];
        proof {
            assert(ranges_within(lines@, bytes@.len() as int));
            assert(0 <= i < lines@.len());
            assert(lines@[i as int].0 <= lines@[i as int].1);
            assert(lines@[i as int].1 <= bytes@.len());
        }
        hash = checksum(hash, vstd::slice::slice_subrange(bytes, line.0, line.1));
        hash = checksum(hash, &newline);
        proof {
            let next = ls.subrange(1, i + 1);
            assert(next.drop_last() =~= ls.subrange(1, i as int));
            assert(next.last() == bytes@.subrange(line.0 as int, line.1 as int));
        }
        i = i + 1;
    }
    hash
}

/// Validates and replays the log `text` (see [`replay_spec`]), for a log whose replay does not
/// overflow.
pub fn validate(text: &str) -> (r: Result<Report, ReplayError>)
    requires
        replay_spec(text.spec_bytes()) is Some,
    ensures
        match replay_spec(text.spec_bytes()) {
            Some(Err(e)) => r == Err::<Report, ReplayError>(e),
            Some(Ok(s)) => r matches Ok(rep) && reports(rep, s),
            None => false,
        },
{
    match replay(text) {
        Some(r) => r,
        None => Err(ReplayError::IncompleteLog),
    }
}


} // verus!
