//! Text of the left LCD's diagnostic view: the capture state, the two latest decisions and
//! the USB hint. Counters and times are shown modulo 10^8; full values stay in the trace.
use vstd::prelude::*;
use crate::clock::{instant_millis, millis_of_ticks};
use crate::rotary_decoder::Detent;
use crate::rotary_log::{decimal, push_decimal, push_signed, signed_decimal};
use crate::rotary_sampled_decoder::DecisionSource;
use crate::rotary_trace::{CaptureState, Record};

verus! {

/// Counters and times are shown modulo this.
pub const DISPLAY_MODULUS: u64 = 100_000_000;

pub open spec fn direction_text_spec(value: Option<Detent>) -> Seq<u8> {
    match value {
        Some(Detent::Clockwise) => seq![0x43u8, 0x57u8],
        Some(Detent::CounterClockwise) => seq![0x43u8, 0x43u8, 0x57u8],
        None => seq![0x2du8],
    }
}

pub open spec fn source_text_spec(value: DecisionSource) -> Seq<u8> {
    match value {
        DecisionSource::Edge => seq![0x45u8],
        DecisionSource::Interval => seq![0x49u8],
        DecisionSource::History => seq![0x48u8],
        DecisionSource::Unknown => seq![0x55u8],
    }
}

pub open spec fn bit_text(b: bool) -> Seq<u8> {
    if b {
        seq![0x31u8]
    } else {
        seq![0x30u8]
    }
}

/// The seven lines of a decision record, top to bottom: its number, source and direction,
/// time, old and new A with the observed levels, edge and interval movement, and the
/// previous direction.
pub open spec fn record_lines_spec(record: Record, millis: u64) -> Seq<Seq<u8>> {
    let d = record.decision;
    seq![
        seq![0x23u8] + decimal((record.number % DISPLAY_MODULUS) as nat),
        source_text_spec(d.source) + seq![0x3eu8] + direction_text_spec(d.output),
        seq![0x74u8] + decimal((millis % DISPLAY_MODULUS) as nat) + seq![0x6du8, 0x73u8],
        seq![0x41u8] + bit_text(d.old_a) + seq![0x3eu8] + bit_text(d.new_a) + seq![0x20u8, 0x41u8, 0x42u8]
            + bit_text(d.observed_a) + bit_text(d.observed_b),
        seq![0x45u8, 0x3au8] + signed_decimal(d.edge_movement as int),
        seq![0x49u8, 0x3au8] + signed_decimal(d.interval_movement as int),
        seq![0x48u8, 0x3au8] + direction_text_spec(d.previous_direction),
    ]
}

/// The title line for a capture state.
pub open spec fn title_spec(state: CaptureState) -> Seq<u8> {
    match state {
        CaptureState::Disarmed => seq![
            0x55u8,
            0x53u8,
            0x42u8,
            0x3au8,
            0x20u8,
            0x52u8,
            0x55u8,
            0x4eu8,
            0x20u8,
            0x54u8,
            0x4fu8,
            0x4fu8,
            0x4cu8,
        ],
        CaptureState::Armed => seq![0x41u8, 0x52u8, 0x4du8, 0x45u8, 0x44u8],
        CaptureState::Frozen => seq![0x46u8, 0x52u8, 0x4fu8, 0x5au8, 0x45u8, 0x4eu8],
    }
}

fn push_bytes(out: &mut Vec<u8>, bytes: &[u8])
    ensures
        final(out)@ == old(out)@ + bytes@,
{
    let mut i: usize = 0;
    while i < bytes.len()
        invariant
            i <= bytes@.len(),
            out@ == old(out)@ + bytes@.subrange(0, i as int),
        decreases bytes@.len() - i,
    {
        out.push(bytes[i]);
        proof {
            assert(out@ =~= old(out)@ + bytes@.subrange(0, i + 1));
        }
        i = i + 1;
    }
    proof {
        assert(bytes@.subrange(0, bytes@.len() as int) =~= bytes@);
    }
}

fn push_direction(out: &mut Vec<u8>, value: Option<Detent>)
    ensures
        final(out)@ == old(out)@ + direction_text_spec(value),
{
    let ghost start = out@;
    match value {
        Some(Detent::Clockwise) => {
            out.push(0x43);
            out.push(0x57);
        },
        Some(Detent::CounterClockwise) => {
            out.push(0x43);
            out.push(0x43);
            out.push(0x57);
        },
        None => {
            out.push(0x2d);
        },
    }
    proof {
        assert(out@ =~= start + direction_text_spec(value));
    }
}

fn push_bit(out: &mut Vec<u8>, b: bool)
    ensures
        final(out)@ == old(out)@ + bit_text(b),
{
    let ghost start = out@;
    out.push(if b { 0x31 } else { 0x30 });
    proof {
        assert(out@ =~= start + bit_text(b));
    }
}

/// The lines of a decision record as the view shows them, its time read from the clock
/// ticks of its sample.
pub fn record_text(record: Record) -> (r: Vec<Vec<u8>>)
    requires
        record.sample.ticks <= u64::MAX / 1000,
    ensures
        r@.len() == 7,
        forall|i: int|
            0 <= i < 7 ==> #[trigger] r@[i]@ == record_lines_spec(
                record,
                millis_of_ticks(record.sample.ticks),
            )[i],
{
    let millis = instant_millis(record.sample.ticks);
    record_lines(record, millis)
}

/// The lines of a decision record; `millis` is the time of its sample in milliseconds.
pub fn record_lines(record: Record, millis: u64) -> (r: Vec<Vec<u8>>)
    ensures
        r@.len() == 7,
        forall|i: int| 0 <= i < 7 ==> #[trigger] r@[i]@ == record_lines_spec(record, millis)[i],
{
    let d = record.decision;
    let mut lines: Vec<Vec<u8>> = Vec::new();

    let mut number: Vec<u8> = Vec::new();
    number.push(0x23);
    push_decimal(&mut number, record.number % DISPLAY_MODULUS);
    lines.push(number);

    let mut decision: Vec<u8> = Vec::new();
    let source_letter: [u8; 1] = [match d.source {
        DecisionSource::Edge => 0x45,
        DecisionSource::Interval => 0x49,
        DecisionSource::History => 0x48,
        DecisionSource::Unknown => 0x55,
    }];
    push_bytes(&mut decision, &source_letter);
    decision.push(0x3e);
    push_direction(&mut decision, d.output);
    lines.push(decision);

    let mut time: Vec<u8> = Vec::new();
    time.push(0x74);
    push_decimal(&mut time, millis % DISPLAY_MODULUS);
    time.push(0x6d);
    time.push(0x73);
    lines.push(time);

    let mut levels: Vec<u8> = Vec::new();
    levels.push(0x41);
    push_bit(&mut levels, d.old_a);
    levels.push(0x3e);
    push_bit(&mut levels, d.new_a);
    levels.push(0x20);
    levels.push(0x41);
    levels.push(0x42);
    push_bit(&mut levels, d.observed_a);
    push_bit(&mut levels, d.observed_b);
    lines.push(levels);

    let mut edge: Vec<u8> = Vec::new();
    edge.push(0x45);
    edge.push(0x3a);
    push_signed(&mut edge, d.edge_movement as i64);
    lines.push(edge);

    let mut interval: Vec<u8> = Vec::new();
    interval.push(0x49);
    interval.push(0x3a);
    push_signed(&mut interval, d.interval_movement as i64);
    lines.push(interval);

    let mut history: Vec<u8> = Vec::new();
    history.push(0x48);
    history.push(0x3a);
    push_direction(&mut history, d.previous_direction);
    lines.push(history);

    proof {
        let s = record_lines_spec(record, millis);
        assert(source_letter@ =~= source_text_spec(d.source));
        assert(lines@[0]@ =~= s[0]);
        assert(lines@[1]@ =~= s[1]);
        assert(lines@[2]@ =~= s[2]);
        assert(lines@[3]@ =~= s[3]);
        assert(lines@[4]@ =~= s[4]);
        assert(lines@[5]@ =~= s[5]);
        assert(lines@[6]@ =~= s[6]);
    }
    lines
}

/// The title line of the diagnostic view.
pub fn title(state: CaptureState) -> (r: Vec<u8>)
    ensures
        r@ == title_spec(state),
{
    let mut r: Vec<u8> = Vec::new();
    match state {
        CaptureState::Disarmed => {
            let text: [u8; 13] = [0x55, 0x53, 0x42, 0x3a, 0x20, 0x52, 0x55, 0x4e, 0x20, 0x54, 0x4f, 0x4f, 0x4c];
            push_bytes(&mut r, &text);
        },
        CaptureState::Armed => {
            let text: [u8; 5] = [0x41, 0x52, 0x4d, 0x45, 0x44];
            push_bytes(&mut r, &text);
        },
        CaptureState::Frozen => {
            let text: [u8; 6] = [0x46, 0x52, 0x4f, 0x5a, 0x45, 0x4e];
            push_bytes(&mut r, &text);
        },
    }
    proof {
        assert(r@ =~= title_spec(state));
    }
    r
}

/// The diagnostic view's renderer: it redraws only when the capture generation, the number
/// of decisions or the capture state changed.
pub struct DiagnosticRenderer {
    pub last_number: Option<(u32, u64, CaptureState)>,
}

impl DiagnosticRenderer {
    pub fn new() -> (r: Self)
        ensures
            r.last_number is None,
    {
        DiagnosticRenderer { last_number: None }
    }

    /// Whether the view must be drawn for `key` (generation, decision count, state); `key`
    /// becomes the last one drawn.
    pub fn should_render(&mut self, key: (u32, u64, CaptureState)) -> (r: bool)
        ensures
            r == (old(self).last_number != Some(key)),
            final(self).last_number == Some(key),
    {
        let changed = match self.last_number {
            Some(last) => !(last.0 == key.0 && last.1 == key.1 && last.2 == key.2),
            None => true,
        };
        self.last_number = Some(key);
        changed
    }
}

} // verus!
