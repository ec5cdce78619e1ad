//! Stable text protocol shared by firmware export and host replay.
//!
//! A row is `n,ticks,a,b`, then the decoder state before and after the sample (nine fields
//! each), then the evidence (`delta,preclear_e,preclear_i,clears`), the decision source and
//! the output direction, all in decimal, ending in a newline.
use vstd::prelude::*;
use crate::rotary_decoder::Detent;
use crate::rotary_sampled_decoder::{DecisionSource, DecoderState};
use crate::rotary_trace::Sample;
use crate::calibration_data::{checksum_from, fnv1a};

verus! {

pub const HEADER: &'static str = "n,ticks,a,b,b_stable,b_candidate,b_run,b_ab,b_idle,b_tracking,b_e,b_i,b_h,a_stable,a_candidate,a_run,a_ab,a_idle,a_tracking,a_e,a_i,a_h,delta,preclear_e,preclear_i,clears,source,output";

/// The log code of a direction: 1 clockwise, -1 counter-clockwise, 0 none.
pub open spec fn direction_code(value: Option<Detent>) -> i8 {
    match value {
        Some(Detent::Clockwise) => 1i8,
        Some(Detent::CounterClockwise) => -1i8,
        None => 0i8,
    }
}

pub fn direction(value: Option<Detent>) -> (r: i8)
    ensures
        r == direction_code(value),
{
    match value {
        Some(Detent::Clockwise) => 1,
        Some(Detent::CounterClockwise) => -1,
        None => 0,
    }
}

/// The log letter of a decision source; `-` for a sample without a decision.
pub open spec fn source_letter(value: Option<DecisionSource>) -> u8 {
    match value {
        Some(DecisionSource::Edge) => 0x45u8,
        Some(DecisionSource::Interval) => 0x49u8,
        Some(DecisionSource::History) => 0x48u8,
        Some(DecisionSource::Unknown) => 0x55u8,
        None => 0x2du8,
    }
}

/// The log letter of a decision source, as text.
pub fn source(value: Option<DecisionSource>) -> (r: &'static str)
    ensures
        r@ == seq![source_letter(value) as char],
{
    proof {
        reveal_strlit("E");
        reveal_strlit("I");
        reveal_strlit("H");
        reveal_strlit("U");
        reveal_strlit("-");
    }
    match value {
        Some(DecisionSource::Edge) => "E",
        Some(DecisionSource::Interval) => "I",
        Some(DecisionSource::History) => "H",
        Some(DecisionSource::Unknown) => "U",
        None => "-",
    }
}

/// ASCII decimal digits of `n`, without leading zeros.
pub open spec fn decimal(n: nat) -> Seq<u8>
    decreases n,
{
    if n < 10 {
        seq![(0x30 + n) as u8]
    } else {
        decimal(n / 10).push((0x30 + n % 10) as u8)
    }
}

/// ASCII decimal text of a signed number, with `-` for negatives.
pub open spec fn signed_decimal(n: int) -> Seq<u8> {
    if n < 0 { seq![0x2du8] + decimal((-n) as nat) } else { decimal(n as nat) }
}

pub open spec fn comma() -> Seq<u8> {
    seq![0x2cu8]
}

pub open spec fn bit(b: bool) -> Seq<u8> {
    if b { seq![0x31u8] } else { seq![0x30u8] }
}

/// `out` followed by the nine state fields, each preceded by a comma.
pub open spec fn append_state(out: Seq<u8>, s: DecoderState) -> Seq<u8> {
    out + comma() + bit(s.stable_a) + comma() + bit(s.candidate_a) + comma() + decimal(s.run_a as nat) + comma()
        + decimal(s.previous_state as nat) + comma() + decimal(s.unchanged_samples as nat) + comma() + bit(
        s.tracking_a_edge,
    ) + comma() + signed_decimal(s.edge_movement as int) + comma() + signed_decimal(s.interval_movement as int)
        + comma() + signed_decimal(direction_code(s.last_direction) as int)
}

/// `out` followed by the complete text of one row, including its newline.
pub open spec fn append_row(out: Seq<u8>, s: Sample) -> Seq<u8> {
    let head = out + decimal(s.number as nat) + comma() + decimal(s.ticks as nat) + comma() + bit(s.a) + comma()
        + bit(s.b);
    append_state(append_state(head, s.before), s.after) + comma() + signed_decimal(s.evidence.delta as int)
        + comma() + signed_decimal(s.evidence.edge_before_clear as int) + comma() + signed_decimal(
        s.evidence.interval_before_clear as int,
    ) + comma() + decimal(s.evidence.clears as nat) + comma() + seq![
        source_letter(
            match s.decision {
                Some(d) => Some(d.source),
                None => None,
            },
        ),
    ] + comma() + signed_decimal(
        direction_code(
            match s.decision {
                Some(d) => d.output,
                None => None,
            },
        ) as int,
    ) + seq![0x0au8]
}

/// Appends the decimal digits of `n`.
pub fn push_decimal(out: &mut Vec<u8>, n: u64)
    ensures
        final(out)@ == old(out)@ + decimal(n as nat),
    decreases n,
{
    if n >= 10 {
        push_decimal(out, n / 10);
    }
    out.push((0x30 + n % 10) as u8);
    proof {
        if n < 10 {
            assert(old(out)@ + decimal(n as nat) =~= old(out)@.push((0x30 + n) as u8));
        } else {
            assert(old(out)@ + decimal(n as nat) =~= (old(out)@ + decimal((n / 10) as nat)).push((0x30 + n % 10) as u8));
        }
    }
}

/// Appends the decimal text of a signed number.
pub fn push_signed(out: &mut Vec<u8>, n: i64)
    ensures
        final(out)@ == old(out)@ + signed_decimal(n as int),
{
    if n < 0 {
        out.push(0x2d);
        let magnitude = (-(n as i128)) as u64;
        push_decimal(out, magnitude);
        proof {
            assert(old(out)@ + signed_decimal(n as int) =~= old(out)@.push(0x2du8) + decimal(magnitude as nat));
        }
    } else {
        push_decimal(out, n as u64);
    }
}

fn push_bit(out: &mut Vec<u8>, b: bool)
    ensures
        final(out)@ == old(out)@ + bit(b),
{
    out.push(if b { 0x31 } else { 0x30 });
    proof {
        assert(old(out)@ + bit(b) =~= old(out)@.push(if b { 0x31u8 } else { 0x30u8 }));
    }
}

fn push_comma(out: &mut Vec<u8>)
    ensures
        final(out)@ == old(out)@ + comma(),
{
    out.push(0x2c);
    proof {
        assert(old(out)@ + comma() =~= old(out)@.push(0x2cu8));
    }
}

fn push_state(out: &mut Vec<u8>, s: DecoderState)
    ensures
        final(out)@ == append_state(old(out)@, s),
{
    push_comma(out);
    push_bit(out, s.stable_a);
    push_comma(out);
    push_bit(out, s.candidate_a);
    push_comma(out);
    push_decimal(out, s.run_a as u64);
    push_comma(out);
    push_decimal(out, s.previous_state as u64);
    push_comma(out);
    push_decimal(out, s.unchanged_samples as u64);
    push_comma(out);
    push_bit(out, s.tracking_a_edge);
    push_comma(out);
    push_signed(out, s.edge_movement as i64);
    push_comma(out);
    push_signed(out, s.interval_movement as i64);
    push_comma(out);
    push_signed(out, direction(s.last_direction) as i64);
}

/// Appends one row (with its newline) to `out`.
pub fn row(out: &mut Vec<u8>, s: Sample)
    ensures
        final(out)@ == append_row(old(out)@, s),
{
    push_decimal(out, s.number);
    push_comma(out);
    push_decimal(out, s.ticks);
    push_comma(out);
    push_bit(out, s.a);
    push_comma(out);
    push_bit(out, s.b);
    push_state(out, s.before);
    push_state(out, s.after);
    push_comma(out);
    push_signed(out, s.evidence.delta as i64);
    push_comma(out);
    push_signed(out, s.evidence.edge_before_clear as i64);
    push_comma(out);
    push_signed(out, s.evidence.interval_before_clear as i64);
    push_comma(out);
    push_decimal(out, s.evidence.clears as u64);
    push_comma(out);
    let (decision_source, output) = match s.decision {
        Some(d) => (Some(d.source), d.output),
        None => (None, None),
    };
    let letter = source_letter_byte(decision_source);
    let ghost before_letter = out@;
    out.push(letter);
    proof {
        assert(out@ =~= before_letter + seq![letter]);
    }
    push_comma(out);
    push_signed(out, direction(output) as i64);
    let ghost before_newline = out@;
    out.push(0x0a);
    proof {
        assert(out@ =~= before_newline + seq![0x0au8]);
    }
}

/// The log letter of a decision source, as one byte.
pub fn source_letter_byte(value: Option<DecisionSource>) -> (r: u8)
    ensures
        r == source_letter(value),
{
    match value {
        Some(DecisionSource::Edge) => 0x45,
        Some(DecisionSource::Interval) => 0x49,
        Some(DecisionSource::History) => 0x48,
        Some(DecisionSource::Unknown) => 0x55,
        None => 0x2d,
    }
}

/// FNV-1a (32-bit) of `bytes`, continuing from `hash`: the transport checksum of a log.
pub fn checksum(hash: u32, bytes: &[u8]) -> (r: u32)
    ensures
        r == fnv1a(hash, bytes@),
{
    checksum_from(hash, bytes)
}

} // verus!
