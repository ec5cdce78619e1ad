//! What the export writes, the replay reads back: the fields of a written row parse back to
//! the sample they were written from.
use vstd::prelude::*;
use vstd::string::StringSliceAdditionalSpecFns;
use crate::log_text::{
    all_digits, digit_value, digits_value, fields_of, find, is_digit, lemma_find, lemma_find_bounds, lines_of,
    parse_signed, parse_unsigned, strip_cr, CARRIAGE_RETURN, COMMA, MINUS, NEWLINE, PLUS,
};
use crate::replay::{bool_field, direction_field, parse_state_fields, row_step, ReplayError, RowOutcome};
use crate::rotary_decoder::Detent;
use crate::rotary_log::{append_row, append_state, bit, comma, decimal, direction_code, signed_decimal, source_letter};
use crate::rotary_sampled_decoder::{
    law_output_only_on_confirmed_a_change, sample_step, update_in_range, DecisionSource, DecoderState,
};
use crate::rotary_trace::{Sample, SAMPLE_CAPACITY};
use crate::calibration_data::{fnv1a, FNV_OFFSET_BASIS};
use crate::replay::{lines_checksum, replay_rows, replay_spec, conclude, advance, start_progress, usize_field, u64_field, ReplayProgress, ReplaySummary, BEGIN_TAG, FORMAT_VERSION, SAMPLE_RATE, END_TAG};
use crate::rotary_session::{begin_line_spec, end_line_spec, hex_digit, hex_digits};
use crate::rotary_log::HEADER;

verus! {

pub open spec fn comma_free(t: Seq<u8>) -> bool {
    forall|i: int| 0 <= i < t.len() ==> #[trigger] t[i] != COMMA
}

#[verifier::spinoff_prover]
#[verifier::rlimit(40)]
proof fn lemma_decimal_digits(n: nat)
    ensures
        decimal(n).len() >= 1,
        all_digits(decimal(n), 10),
        digits_value(decimal(n), 10) == n,
        comma_free(decimal(n)),
        decimal(n)[0] != PLUS && decimal(n)[0] != MINUS,
    decreases n,
{
    let d = decimal(n);
    let c = (0x30 + n % 10) as u8;
    assert(digit_value(c) == n % 10);
    if n >= 10 {
        let p = decimal(n / 10);
        lemma_decimal_digits(n / 10);
        assert(d == p.push(c));
        assert(d.drop_last() =~= p);
        assert(d.last() == c);
        assert(digits_value(d, 10) == digits_value(p, 10) * 10 + digit_value(c));
        assert((n / 10) * 10 + n % 10 == n);
        assert(d[0] == p[0]);
        assert forall|i: int| 0 <= i < d.len() implies #[trigger] is_digit(d[i], 10) by {
            if i < d.len() - 1 {
                assert(d[i] == p[i]);
            }
        }
        assert forall|i: int| 0 <= i < d.len() implies #[trigger] d[i] != COMMA by {
            if i < d.len() - 1 {
                assert(d[i] == p[i]);
            }
        }
    } else {
        assert(d == seq![c]);
        assert(d.drop_last() =~= Seq::<u8>::empty());
        assert(digits_value(d, 10) == digits_value(Seq::<u8>::empty(), 10) * 10 + digit_value(c));
    }
}

proof fn lemma_unsigned_round_trip(n: nat, max: nat)
    requires
        n <= max,
    ensures
        parse_unsigned(decimal(n), 10, max) == Some(n),
{
    lemma_decimal_digits(n);
}

proof fn lemma_signed_round_trip(v: int, min_magnitude: nat, max: nat)
    requires
        -min_magnitude <= v <= max,
    ensures
        parse_signed(signed_decimal(v), min_magnitude, max) == Some(v),
        comma_free(signed_decimal(v)),
{
    if v < 0 {
        lemma_decimal_digits((-v) as nat);
        let t = signed_decimal(v);
        assert(t.drop_first() =~= decimal((-v) as nat));
        assert forall|i: int| 0 <= i < t.len() implies #[trigger] t[i] != COMMA by {
            if i > 0 {
                assert(t[i] == decimal((-v) as nat)[i - 1]);
            }
        }
    } else {
        lemma_decimal_digits(v as nat);
    }
}

proof fn lemma_direction_round_trip(d: Option<Detent>)
    ensures
        direction_field(signed_decimal(direction_code(d) as int)) == Some(d),
        comma_free(signed_decimal(direction_code(d) as int)),
{
    assert(decimal(0) =~= seq![0x30u8]);
    assert(decimal(1) =~= seq![0x31u8]);
    assert(signed_decimal(-1) =~= seq![0x2du8, 0x31u8]);
    lemma_signed_round_trip(direction_code(d) as int, 1, 1);
}

proof fn lemma_bit_round_trip(b: bool)
    ensures
        bool_field(bit(b)) == Some(b),
        comma_free(bit(b)),
{
    assert(seq![0x31u8] != seq![0x30u8]) by {
        assert(seq![0x31u8][0] != seq![0x30u8][0]);
    }
}

/// Splitting after a last comma-free field adds that field.
#[verifier::spinoff_prover]
#[verifier::rlimit(40)]
proof fn lemma_fields_push(x: Seq<u8>, y: Seq<u8>)
    requires
        comma_free(y),
    ensures
        fields_of(x + comma() + y) == fields_of(x).push(y),
    decreases x.len(),
{
    reveal(fields_of);
    let t = x + comma() + y;
    lemma_find_bounds(x, COMMA);
    let i = find(x, COMMA);
    if i < x.len() {
        assert forall|j: int| 0 <= j < i implies t[j] != COMMA by {
            assert(t[j] == x[j]);
        }
        lemma_find(t, COMMA, i);
        let rest = x.subrange(i + 1, x.len() as int);
        assert(t.subrange(0, i) =~= x.subrange(0, i));
        assert(t.subrange(i + 1, t.len() as int) =~= rest + comma() + y);
        assert(x.subrange(i + 1, x.len() as int) =~= rest);
        lemma_fields_push(rest, y);
        assert(fields_of(x) == seq![x.subrange(0, i)] + fields_of(rest));
        assert(fields_of(t) =~= fields_of(x).push(y));
    } else {
        assert forall|j: int| 0 <= j < x.len() implies t[j] != COMMA by {
            assert(t[j] == x[j]);
        }
        lemma_find(t, COMMA, x.len() as int);
        assert(t.subrange(0, x.len() as int) =~= x);
        assert(t.subrange(x.len() + 1 as int, t.len() as int) =~= y);
        lemma_find_bounds(y, COMMA);
        if find(y, COMMA) < y.len() {
            assert(y[find(y, COMMA)] == COMMA);
        }
        assert(fields_of(y) == seq![y]);
        assert(fields_of(x) == seq![x]);
        assert(fields_of(t) =~= fields_of(x).push(y));
    }
}

/// A comma-free text is one field.
proof fn lemma_single_field(t: Seq<u8>)
    requires
        comma_free(t),
    ensures
        fields_of(t) == seq![t],
{
    reveal(fields_of);
    lemma_find_bounds(t, COMMA);
    if find(t, COMMA) < t.len() {
        assert(t[find(t, COMMA)] == COMMA);
    }
}

/// The nine fields of a decoder state, in the order they are written.
pub open spec fn state_fields(s: DecoderState) -> Seq<Seq<u8>> {
    seq![
        bit(s.stable_a),
        bit(s.candidate_a),
        decimal(s.run_a as nat),
        decimal(s.previous_state as nat),
        decimal(s.unchanged_samples as nat),
        bit(s.tracking_a_edge),
        signed_decimal(s.edge_movement as int),
        signed_decimal(s.interval_movement as int),
        signed_decimal(direction_code(s.last_direction) as int),
    ]
}

#[verifier::spinoff_prover]
#[verifier::rlimit(40)]
proof fn lemma_state_fields(t: Seq<u8>, s: DecoderState)
    ensures
        fields_of(append_state(t, s)) == fields_of(t) + state_fields(s),
{
    lemma_decimal_digits(s.run_a as nat);
    lemma_decimal_digits(s.previous_state as nat);
    lemma_decimal_digits(s.unchanged_samples as nat);
    lemma_signed_round_trip(s.edge_movement as int, 0x8000_0000, i32::MAX as nat);
    lemma_signed_round_trip(s.interval_movement as int, 0x8000_0000, i32::MAX as nat);
    lemma_direction_round_trip(s.last_direction);
    lemma_bit_round_trip(s.stable_a);
    lemma_bit_round_trip(s.candidate_a);
    lemma_bit_round_trip(s.tracking_a_edge);
    let f0 = bit(s.stable_a);
    let f1 = bit(s.candidate_a);
    let f2 = decimal(s.run_a as nat);
    let f3 = decimal(s.previous_state as nat);
    let f4 = decimal(s.unchanged_samples as nat);
    let f5 = bit(s.tracking_a_edge);
    let f6 = signed_decimal(s.edge_movement as int);
    let f7 = signed_decimal(s.interval_movement as int);
    let f8 = signed_decimal(direction_code(s.last_direction) as int);
    let t1 = t + comma() + f0;
    let t2 = t1 + comma() + f1;
    let t3 = t2 + comma() + f2;
    let t4 = t3 + comma() + f3;
    let t5 = t4 + comma() + f4;
    let t6 = t5 + comma() + f5;
    let t7 = t6 + comma() + f6;
    let t8 = t7 + comma() + f7;
    let t9 = t8 + comma() + f8;
    lemma_fields_push(t, f0);
    lemma_fields_push(t1, f1);
    lemma_fields_push(t2, f2);
    lemma_fields_push(t3, f3);
    lemma_fields_push(t4, f4);
    lemma_fields_push(t5, f5);
    lemma_fields_push(t6, f6);
    lemma_fields_push(t7, f7);
    lemma_fields_push(t8, f8);
    assert(append_state(t, s) == t9);
    assert(fields_of(t9) == fields_of(t).push(f0).push(f1).push(f2).push(f3).push(f4).push(f5).push(f6).push(f7).push(
        f8,
    ));
    assert(fields_of(t).push(f0).push(f1).push(f2).push(f3).push(f4).push(f5).push(f6).push(f7).push(f8)
        =~= fields_of(t) + state_fields(s));
}

/// A decoder state's fields parse back to it.
proof fn lemma_state_round_trip(s: DecoderState)
    requires
        s.previous_state < 4,
    ensures
        parse_state_fields(state_fields(s)) == Ok::<DecoderState, ReplayError>(s),
{
    lemma_direction_round_trip(s.last_direction);
    lemma_bit_round_trip(s.stable_a);
    lemma_bit_round_trip(s.candidate_a);
    lemma_bit_round_trip(s.tracking_a_edge);
    let g = state_fields(s);
    assert(g[0] == bit(s.stable_a) && g[1] == bit(s.candidate_a) && g[5] == bit(s.tracking_a_edge));
    assert(g[2] == decimal(s.run_a as nat) && g[3] == decimal(s.previous_state as nat));
    assert(g[4] == decimal(s.unchanged_samples as nat));
    assert(g[6] == signed_decimal(s.edge_movement as int) && g[7] == signed_decimal(s.interval_movement as int));
    assert(g[8] == signed_decimal(direction_code(s.last_direction) as int));
    lemma_unsigned_round_trip(s.run_a as nat, 255);
    lemma_unsigned_round_trip(s.previous_state as nat, 255);
    lemma_unsigned_round_trip(s.unchanged_samples as nat, 255);
    lemma_signed_round_trip(s.edge_movement as int, 0x8000_0000, i32::MAX as nat);
    lemma_signed_round_trip(s.interval_movement as int, 0x8000_0000, i32::MAX as nat);
}

/// A decoder state written as text reads back the same: the text a row holds for it, without
/// the leading comma, splits into the nine state fields, and they parse back to the state
/// (whose A/B state is a 2-bit value).
pub proof fn law_state_text_round_trip(s: DecoderState)
    requires
        s.previous_state <= 3,
    ensures
        fields_of(append_state(Seq::<u8>::empty(), s).drop_first()) == state_fields(s),
        parse_state_fields(fields_of(append_state(Seq::<u8>::empty(), s).drop_first()))
            == Ok::<DecoderState, ReplayError>(s),
{
    let e = Seq::<u8>::empty();
    let text = append_state(e, s);
    let rest = text.drop_first();
    lemma_state_fields(e, s);
    reveal(fields_of);
    assert(find(e, COMMA) == 0);
    assert(fields_of(e) == seq![e]);
    assert(text[0] == COMMA);
    lemma_find(text, COMMA, 0);
    assert(text.subrange(0, 0) =~= e);
    assert(text.subrange(1, text.len() as int) =~= rest);
    assert(fields_of(text) == seq![e] + fields_of(rest));
    assert(fields_of(rest) =~= (seq![e] + fields_of(rest)).drop_first());
    assert(state_fields(s) =~= (seq![e] + state_fields(s)).drop_first());
    lemma_state_round_trip(s);
}

/// The decision source and output that a sample's row records.
pub open spec fn recorded_source(s: Sample) -> Option<DecisionSource> {
    match s.decision {
        Some(d) => Some(d.source),
        None => None,
    }
}

pub open spec fn recorded_output(s: Sample) -> Option<Detent> {
    match s.decision {
        Some(d) => d.output,
        None => None,
    }
}

/// A sample that holds one decoder step: its after-state, evidence and decision are those of
/// the step from its before-state on its levels.
pub open spec fn is_decoder_step(s: Sample) -> bool {
    let (after, evidence, decision, output) = sample_step(s.before, s.a, s.b);
    &&& s.before.previous_state < 4
    &&& update_in_range(s.before, s.a, s.b)
    &&& s.after == after
    &&& s.evidence == evidence
    &&& s.decision == decision
}

/// The fields of a written row, in order.
pub open spec fn row_fields(s: Sample) -> Seq<Seq<u8>> {
    seq![decimal(s.number as nat), decimal(s.ticks as nat), bit(s.a), bit(s.b)] + state_fields(s.before)
        + state_fields(s.after) + seq![
        signed_decimal(s.evidence.delta as int),
        signed_decimal(s.evidence.edge_before_clear as int),
        signed_decimal(s.evidence.interval_before_clear as int),
        decimal(s.evidence.clears as nat),
        seq![source_letter(recorded_source(s))],
        signed_decimal(direction_code(recorded_output(s)) as int),
    ]
}

#[verifier::spinoff_prover]
#[verifier::rlimit(40)]
proof fn lemma_row_fields(s: Sample)
    ensures
        fields_of(append_row(seq![], s).drop_last()) == row_fields(s),
{
    lemma_decimal_digits(s.number as nat);
    lemma_decimal_digits(s.ticks as nat);
    lemma_decimal_digits(s.evidence.clears as nat);
    lemma_signed_round_trip(s.evidence.delta as int, 0x80, 0x7f);
    lemma_signed_round_trip(s.evidence.edge_before_clear as int, 0x8000_0000, i32::MAX as nat);
    lemma_signed_round_trip(s.evidence.interval_before_clear as int, 0x8000_0000, i32::MAX as nat);
    lemma_direction_round_trip(recorded_output(s));
    let letter = seq![source_letter(recorded_source(s))];
    assert(comma_free(letter)) by {
        assert(letter[0] != COMMA);
    }
    let h0 = seq![] + decimal(s.number as nat);
    assert(h0 =~= decimal(s.number as nat));
    lemma_single_field(h0);
    let h1 = h0 + comma() + decimal(s.ticks as nat);
    let h2 = h1 + comma() + bit(s.a);
    let h3 = h2 + comma() + bit(s.b);
    lemma_fields_push(h0, decimal(s.ticks as nat));
    lemma_fields_push(h1, bit(s.a));
    lemma_fields_push(h2, bit(s.b));
    let b = append_state(h3, s.before);
    let a = append_state(b, s.after);
    lemma_state_fields(h3, s.before);
    lemma_state_fields(b, s.after);
    let e1 = a + comma() + signed_decimal(s.evidence.delta as int);
    let e2 = e1 + comma() + signed_decimal(s.evidence.edge_before_clear as int);
    let e3 = e2 + comma() + signed_decimal(s.evidence.interval_before_clear as int);
    let e4 = e3 + comma() + decimal(s.evidence.clears as nat);
    let e5 = e4 + comma() + letter;
    let e6 = e5 + comma() + signed_decimal(direction_code(recorded_output(s)) as int);
    lemma_fields_push(a, signed_decimal(s.evidence.delta as int));
    lemma_fields_push(e1, signed_decimal(s.evidence.edge_before_clear as int));
    lemma_fields_push(e2, signed_decimal(s.evidence.interval_before_clear as int));
    lemma_fields_push(e3, decimal(s.evidence.clears as nat));
    lemma_fields_push(e4, letter);
    lemma_fields_push(e5, signed_decimal(direction_code(recorded_output(s)) as int));
    assert(append_row(seq![], s) == e6 + seq![0x0au8]);
    assert((e6 + seq![0x0au8]).drop_last() =~= e6);
    assert(fields_of(e6) =~= row_fields(s));
}

/// The text protocol round-trips: the row that the export writes for a sample holding one
/// decoder step replays, on its own, to that step — its after-state, timestamp, clears,
/// decision source and output — whenever its number follows the earlier samples and rows,
/// its timestamp is not older than the previous row's, and it starts from the state the
/// previous row ended in.
#[verifier::spinoff_prover]
#[verifier::rlimit(80)]
pub proof fn law_written_row_replays(s: Sample, index: nat, dropped: nat, state: DecoderState, prior_ticks: u64)
    requires
        is_decoder_step(s),
        s.number == dropped + index + 1,
        s.ticks >= prior_ticks,
        index == 0 || state == s.before,
    ensures
        row_step(fields_of(append_row(seq![], s).drop_last()), index, dropped, state, prior_ticks) == Some(
            Ok::<RowOutcome, ReplayError>(
                RowOutcome {
                    state: s.after,
                    ticks: s.ticks,
                    clears: s.evidence.clears,
                    source: recorded_source(s),
                    output: recorded_output(s),
                },
            ),
        ),
{
    lemma_row_fields(s);
    let f = row_fields(s);
    assert(f.len() == 28);
    lemma_unsigned_round_trip(s.number as nat, u64::MAX as nat);
    lemma_unsigned_round_trip(s.ticks as nat, u64::MAX as nat);
    assert(f[0] == decimal(s.number as nat));
    assert(f[1] == decimal(s.ticks as nat));
    assert(f.subrange(4, 13) =~= state_fields(s.before));
    assert(f.subrange(13, 22) =~= state_fields(s.after));
    lemma_state_round_trip(s.before);
    law_output_only_on_confirmed_a_change(s.before, s.a, s.b);
    assert(s.after.previous_state < 4);
    lemma_state_round_trip(s.after);
    lemma_bit_round_trip(s.a);
    lemma_bit_round_trip(s.b);
    assert(f[2] == bit(s.a));
    assert(f[3] == bit(s.b));
    let (after, evidence, decision, output) = sample_step(s.before, s.a, s.b);
    assert(output == recorded_output(s));
    assert(f[22] == signed_decimal(evidence.delta as int));
    assert(f[23] == signed_decimal(evidence.edge_before_clear as int));
    assert(f[24] == signed_decimal(evidence.interval_before_clear as int));
    assert(f[25] == decimal(evidence.clears as nat));
    assert(f[26] == seq![source_letter(recorded_source(s))]);
    assert(f[27] == signed_decimal(direction_code(output) as int));
}

// ---------------------------------------------------------------------------
// Lines of a dump.
// ---------------------------------------------------------------------------

/// Text that stays within one line: no line feed and no carriage return.
pub open spec fn line_safe(t: Seq<u8>) -> bool {
    forall|i: int| 0 <= i < t.len() ==> #[trigger] t[i] != NEWLINE && t[i] != CARRIAGE_RETURN
}

proof fn lemma_line_safe_concat(a: Seq<u8>, b: Seq<u8>)
    requires
        line_safe(a),
        line_safe(b),
    ensures
        line_safe(a + b),
{
    assert forall|i: int| 0 <= i < (a + b).len() implies #[trigger] (a + b)[i] != NEWLINE && (a + b)[i]
        != CARRIAGE_RETURN by {
        if i < a.len() {
            assert((a + b)[i] == a[i]);
        } else {
            assert((a + b)[i] == b[i - a.len()]);
        }
    }
}

/// Splitting text that ends a line: its lines, then those of what follows.
#[verifier::spinoff_prover]
#[verifier::rlimit(40)]
proof fn lemma_lines_concat(a: Seq<u8>, b: Seq<u8>)
    requires
        a.len() == 0 || a.last() == NEWLINE,
    ensures
        lines_of(a + b) == lines_of(a) + lines_of(b),
    decreases a.len(),
{
    reveal(lines_of);
    if a.len() == 0 {
        assert(a + b =~= b);
        assert(lines_of(a) == Seq::<Seq<u8>>::empty());
        assert(lines_of(a) + lines_of(b) =~= lines_of(b));
    } else {
        let t = a + b;
        lemma_find_bounds(a, NEWLINE);
        let i = find(a, NEWLINE);
        assert(i < a.len());
        assert forall|j: int| 0 <= j < i implies t[j] != NEWLINE by {
            assert(t[j] == a[j]);
        }
        assert(t[i] == a[i]);
        lemma_find(t, NEWLINE, i);
        let rest = a.subrange(i + 1, a.len() as int);
        assert(t.subrange(0, i) =~= a.subrange(0, i));
        assert(t.subrange(i + 1, t.len() as int) =~= rest + b);
        if rest.len() > 0 {
            assert(rest.last() == a.last());
        }
        lemma_lines_concat(rest, b);
        assert(lines_of(a) == seq![strip_cr(a.subrange(0, i))] + lines_of(rest));
        assert(lines_of(t) == seq![strip_cr(t.subrange(0, i))] + lines_of(rest + b));
        assert(lines_of(t) =~= lines_of(a) + lines_of(b));
    }
}

/// A line and its line feed are that one line.
proof fn lemma_single_line(x: Seq<u8>)
    requires
        line_safe(x),
    ensures
        lines_of(x + seq![NEWLINE]) == seq![x],
{
    reveal(lines_of);
    let t = x + seq![NEWLINE];
    assert forall|j: int| 0 <= j < x.len() implies t[j] != NEWLINE by {
        assert(t[j] == x[j]);
    }
    lemma_find(t, NEWLINE, x.len() as int);
    assert(t.subrange(0, x.len() as int) =~= x);
    assert(t.subrange(x.len() + 1 as int, t.len() as int) =~= Seq::<u8>::empty());
    assert(lines_of(Seq::<u8>::empty()) == Seq::<Seq<u8>>::empty());
    if x.len() > 0 {
        assert(x.last() != CARRIAGE_RETURN);
    }
    assert(strip_cr(x) == x);
    assert(lines_of(t) =~= seq![x]);
}

proof fn lemma_decimal_line_safe(n: nat)
    ensures
        line_safe(decimal(n)),
{
    lemma_decimal_digits(n);
    assert forall|i: int| 0 <= i < decimal(n).len() implies #[trigger] decimal(n)[i] != NEWLINE && decimal(n)[i]
        != CARRIAGE_RETURN by {
        assert(is_digit(decimal(n)[i], 10));
    }
}

proof fn lemma_signed_line_safe(v: int)
    ensures
        line_safe(signed_decimal(v)),
{
    if v < 0 {
        lemma_decimal_line_safe((-v) as nat);
        lemma_line_safe_concat(seq![0x2du8], decimal((-v) as nat));
    } else {
        lemma_decimal_line_safe(v as nat);
    }
}

#[verifier::spinoff_prover]
#[verifier::rlimit(40)]
proof fn lemma_state_line_safe(t: Seq<u8>, s: DecoderState)
    requires
        line_safe(t),
    ensures
        line_safe(append_state(t, s)),
{
    lemma_decimal_line_safe(s.run_a as nat);
    lemma_decimal_line_safe(s.previous_state as nat);
    lemma_decimal_line_safe(s.unchanged_samples as nat);
    lemma_signed_line_safe(s.edge_movement as int);
    lemma_signed_line_safe(s.interval_movement as int);
    lemma_signed_line_safe(direction_code(s.last_direction) as int);
    assert(line_safe(comma()));
    assert(line_safe(bit(s.stable_a)));
    assert(line_safe(bit(s.candidate_a)));
    assert(line_safe(bit(s.tracking_a_edge)));
    let t1 = t + comma() + bit(s.stable_a);
    lemma_line_safe_concat(t, comma());
    lemma_line_safe_concat(t + comma(), bit(s.stable_a));
    let t2 = t1 + comma() + bit(s.candidate_a);
    lemma_line_safe_concat(t1, comma());
    lemma_line_safe_concat(t1 + comma(), bit(s.candidate_a));
    let t3 = t2 + comma() + decimal(s.run_a as nat);
    lemma_line_safe_concat(t2, comma());
    lemma_line_safe_concat(t2 + comma(), decimal(s.run_a as nat));
    let t4 = t3 + comma() + decimal(s.previous_state as nat);
    lemma_line_safe_concat(t3, comma());
    lemma_line_safe_concat(t3 + comma(), decimal(s.previous_state as nat));
    let t5 = t4 + comma() + decimal(s.unchanged_samples as nat);
    lemma_line_safe_concat(t4, comma());
    lemma_line_safe_concat(t4 + comma(), decimal(s.unchanged_samples as nat));
    let t6 = t5 + comma() + bit(s.tracking_a_edge);
    lemma_line_safe_concat(t5, comma());
    lemma_line_safe_concat(t5 + comma(), bit(s.tracking_a_edge));
    let t7 = t6 + comma() + signed_decimal(s.edge_movement as int);
    lemma_line_safe_concat(t6, comma());
    lemma_line_safe_concat(t6 + comma(), signed_decimal(s.edge_movement as int));
    let t8 = t7 + comma() + signed_decimal(s.interval_movement as int);
    lemma_line_safe_concat(t7, comma());
    lemma_line_safe_concat(t7 + comma(), signed_decimal(s.interval_movement as int));
    let t9 = t8 + comma() + signed_decimal(direction_code(s.last_direction) as int);
    lemma_line_safe_concat(t8, comma());
    lemma_line_safe_concat(t8 + comma(), signed_decimal(direction_code(s.last_direction) as int));
    assert(append_state(t, s) == t9);
}

/// The line of a written row, without its line feed.
pub open spec fn row_line(s: Sample) -> Seq<u8> {
    append_row(seq![], s).drop_last()
}

#[verifier::spinoff_prover]
#[verifier::rlimit(40)]
proof fn lemma_row_line(s: Sample)
    ensures
        append_row(seq![], s) == row_line(s) + seq![NEWLINE],
        line_safe(row_line(s)),
{
    let letter = seq![source_letter(recorded_source(s))];
    lemma_decimal_line_safe(s.number as nat);
    lemma_decimal_line_safe(s.ticks as nat);
    lemma_decimal_line_safe(s.evidence.clears as nat);
    lemma_signed_line_safe(s.evidence.delta as int);
    lemma_signed_line_safe(s.evidence.edge_before_clear as int);
    lemma_signed_line_safe(s.evidence.interval_before_clear as int);
    lemma_signed_line_safe(direction_code(recorded_output(s)) as int);
    assert(line_safe(comma()));
    assert(line_safe(letter));
    assert(line_safe(bit(s.a)));
    assert(line_safe(bit(s.b)));
    let h0 = seq![] + decimal(s.number as nat);
    assert(h0 =~= decimal(s.number as nat));
    let h1 = h0 + comma() + decimal(s.ticks as nat);
    lemma_line_safe_concat(h0, comma());
    lemma_line_safe_concat(h0 + comma(), decimal(s.ticks as nat));
    let h2 = h1 + comma() + bit(s.a);
    lemma_line_safe_concat(h1, comma());
    lemma_line_safe_concat(h1 + comma(), bit(s.a));
    let h3 = h2 + comma() + bit(s.b);
    lemma_line_safe_concat(h2, comma());
    lemma_line_safe_concat(h2 + comma(), bit(s.b));
    let b = append_state(h3, s.before);
    lemma_state_line_safe(h3, s.before);
    let a = append_state(b, s.after);
    lemma_state_line_safe(b, s.after);
    let e1 = a + comma() + signed_decimal(s.evidence.delta as int);
    lemma_line_safe_concat(a, comma());
    lemma_line_safe_concat(a + comma(), signed_decimal(s.evidence.delta as int));
    let e2 = e1 + comma() + signed_decimal(s.evidence.edge_before_clear as int);
    lemma_line_safe_concat(e1, comma());
    lemma_line_safe_concat(e1 + comma(), signed_decimal(s.evidence.edge_before_clear as int));
    let e3 = e2 + comma() + signed_decimal(s.evidence.interval_before_clear as int);
    lemma_line_safe_concat(e2, comma());
    lemma_line_safe_concat(e2 + comma(), signed_decimal(s.evidence.interval_before_clear as int));
    let e4 = e3 + comma() + decimal(s.evidence.clears as nat);
    lemma_line_safe_concat(e3, comma());
    lemma_line_safe_concat(e3 + comma(), decimal(s.evidence.clears as nat));
    let e5 = e4 + comma() + letter;
    lemma_line_safe_concat(e4, comma());
    lemma_line_safe_concat(e4 + comma(), letter);
    let e6 = e5 + comma() + signed_decimal(direction_code(recorded_output(s)) as int);
    lemma_line_safe_concat(e5, comma());
    lemma_line_safe_concat(e5 + comma(), signed_decimal(direction_code(recorded_output(s)) as int));
    assert(append_row(seq![], s) == e6 + seq![0x0au8]);
    assert((e6 + seq![0x0au8]).drop_last() =~= e6);
}

/// The rows of `samples` as the export writes them, one after another.
pub open spec fn rows_text(samples: Seq<Sample>) -> Seq<u8>
    decreases samples.len(),
{
    if samples.len() == 0 {
        seq![]
    } else {
        rows_text(samples.drop_last()) + append_row(seq![], samples.last())
    }
}

/// The lines of `samples`' rows.
pub open spec fn row_lines(samples: Seq<Sample>) -> Seq<Seq<u8>> {
    Seq::new(samples.len(), |k: int| row_line(samples[k]))
}

proof fn lemma_rows_text_ends_a_line(samples: Seq<Sample>)
    ensures
        rows_text(samples).len() == 0 || rows_text(samples).last() == NEWLINE,
{
    if samples.len() > 0 {
        lemma_row_line(samples.last());
        let r = append_row(seq![], samples.last());
        assert((rows_text(samples.drop_last()) + r).last() == r.last());
    }
}

#[verifier::spinoff_prover]
#[verifier::rlimit(40)]
proof fn lemma_rows_lines(samples: Seq<Sample>)
    ensures
        lines_of(rows_text(samples)) == row_lines(samples),
    decreases samples.len(),
{
    if samples.len() == 0 {
        reveal(lines_of);
        assert(lines_of(Seq::<u8>::empty()) == Seq::<Seq<u8>>::empty());
        assert(row_lines(samples) =~= Seq::<Seq<u8>>::empty());
    } else {
        let front = samples.drop_last();
        lemma_rows_lines(front);
        lemma_rows_text_ends_a_line(front);
        lemma_row_line(samples.last());
        lemma_lines_concat(rows_text(front), append_row(seq![], samples.last()));
        lemma_single_line(row_line(samples.last()));
        assert(row_lines(samples) =~= row_lines(front) + seq![row_line(samples.last())]);
    }
}

/// Lines, each followed by a line feed.
pub open spec fn joined_lines(ls: Seq<Seq<u8>>) -> Seq<u8>
    decreases ls.len(),
{
    if ls.len() == 0 {
        seq![]
    } else {
        joined_lines(ls.drop_last()) + ls.last() + seq![NEWLINE]
    }
}

proof fn lemma_fnv1a_concat(hash: u32, a: Seq<u8>, b: Seq<u8>)
    ensures
        fnv1a(hash, a + b) == fnv1a(fnv1a(hash, a), b),
    decreases b.len(),
{
    if b.len() == 0 {
        assert(a + b =~= a);
    } else {
        lemma_fnv1a_concat(hash, a, b.drop_last());
        assert((a + b).drop_last() =~= a + b.drop_last());
        assert((a + b).last() == b.last());
    }
}

/// The replay's checksum over lines is FNV-1a of the lines with their line feeds.
proof fn lemma_lines_checksum(ls: Seq<Seq<u8>>)
    ensures
        lines_checksum(ls) == fnv1a(FNV_OFFSET_BASIS, joined_lines(ls)),
    decreases ls.len(),
{
    if ls.len() > 0 {
        lemma_lines_checksum(ls.drop_last());
        let j = joined_lines(ls.drop_last());
        lemma_fnv1a_concat(FNV_OFFSET_BASIS, j, ls.last());
        lemma_fnv1a_concat(FNV_OFFSET_BASIS, j + ls.last(), seq![NEWLINE]);
    }
}

proof fn lemma_joined_rows(samples: Seq<Sample>)
    ensures
        joined_lines(row_lines(samples)) == rows_text(samples),
    decreases samples.len(),
{
    if samples.len() > 0 {
        let front = samples.drop_last();
        lemma_joined_rows(front);
        lemma_row_line(samples.last());
        assert(row_lines(samples).drop_last() =~= row_lines(front));
        assert(row_lines(samples).last() == row_line(samples.last()));
    }
}

proof fn lemma_joined_prepend(first: Seq<u8>, ls: Seq<Seq<u8>>)
    ensures
        joined_lines(seq![first] + ls) == first + seq![NEWLINE] + joined_lines(ls),
    decreases ls.len(),
{
    if ls.len() == 0 {
        assert(seq![first] + ls =~= seq![first]);
        assert(seq![first].drop_last() =~= Seq::<Seq<u8>>::empty());
        assert(joined_lines(Seq::<Seq<u8>>::empty()) == Seq::<u8>::empty());
        assert(first + seq![NEWLINE] + joined_lines(ls) =~= joined_lines(Seq::<Seq<u8>>::empty()) + first + seq![NEWLINE]);
    } else {
        lemma_joined_prepend(first, ls.drop_last());
        assert((seq![first] + ls).drop_last() =~= seq![first] + ls.drop_last());
        assert((seq![first] + ls).last() == ls.last());
        assert(first + seq![NEWLINE] + joined_lines(ls) =~= first + seq![NEWLINE] + joined_lines(ls.drop_last()) + ls.last()
            + seq![NEWLINE]);
    }
}

pub open spec fn pow16(n: nat) -> nat
    decreases n,
{
    if n == 0 {
        1
    } else {
        16 * pow16((n - 1) as nat)
    }
}

#[verifier::spinoff_prover]
#[verifier::rlimit(40)]
proof fn lemma_hex_digits(v: nat, n: nat)
    ensures
        hex_digits(v, n).len() == n,
        all_digits(hex_digits(v, n), 16),
        digits_value(hex_digits(v, n), 16) == v % pow16(n),
        comma_free(hex_digits(v, n)),
        line_safe(hex_digits(v, n)),
        n > 0 ==> hex_digits(v, n)[0] != PLUS && hex_digits(v, n)[0] != MINUS,
    decreases n,
{
    if n > 0 {
        let p = hex_digits(v / 16, (n - 1) as nat);
        lemma_hex_digits(v / 16, (n - 1) as nat);
        let d = hex_digits(v, n);
        let c = hex_digit(v % 16);
        assert(d == p.push(c));
        assert(d.drop_last() =~= p);
        assert(is_digit(c, 16));
        assert(digit_value(c) == v % 16);
        assert forall|i: int| 0 <= i < d.len() implies #[trigger] is_digit(d[i], 16) by {
            if i < d.len() - 1 {
                assert(d[i] == p[i]);
            }
        }
        assert forall|i: int| 0 <= i < d.len() implies #[trigger] d[i] != COMMA && d[i] != NEWLINE && d[i]
            != CARRIAGE_RETURN by {
            if i < d.len() - 1 {
                assert(d[i] == p[i]);
                assert(is_digit(p[i], 16));
            }
        }
        if n > 1 {
            assert(d[0] == p[0]);
        }
        let m = pow16((n - 1) as nat);
        assert(pow16(n) == 16 * m);
        assert(m > 0) by {
            lemma_pow16_positive((n - 1) as nat);
        }
        assert(digits_value(d, 16) == ((v / 16) % m) * 16 + v % 16);
        assert(((v / 16) % m) * 16 + v % 16 == v % (16 * m)) by {
            vstd::arithmetic::div_mod::lemma_breakdown(v as int, 16, m as int);
        }
    } else {
        assert(v % 1 == 0);
    }
}

proof fn lemma_pow16_positive(n: nat)
    ensures
        pow16(n) > 0,
    decreases n,
{
    if n > 0 {
        lemma_pow16_positive((n - 1) as nat);
    }
}

proof fn lemma_header()
    ensures
        line_safe(HEADER.spec_bytes()),
{
    reveal_strlit(
        "n,ticks,a,b,b_stable,b_candidate,b_run,b_ab,b_idle,b_tracking,b_e,b_i,b_h,a_stable,a_candidate,a_run,a_ab,a_idle,a_tracking,a_e,a_i,a_h,delta,preclear_e,preclear_i,clears,source,output",
    );
    assert(forall|i: int|
        0 <= i < HEADER@.len() ==> '\0' <= #[trigger] HEADER@[i] <= '\u{7f}' && HEADER@[i] != '\n' && HEADER@[i]
            != '\r');
    assert(vstd::string::is_ascii(HEADER));
    vstd::string::is_ascii_spec_bytes(HEADER);
    let b = HEADER.spec_bytes();
    assert forall|i: int| 0 <= i < b.len() implies #[trigger] b[i] != NEWLINE && b[i] != CARRIAGE_RETURN by {
        assert(b[i] == HEADER@[i] as u8);
        assert(HEADER@[i] != '\n' && HEADER@[i] != '\r' && HEADER@[i] <= '\u{7f}');
    }
}

/// The fields of a dump's first line.
pub open spec fn begin_fields(generation: u32, count: usize, dropped: u64) -> Seq<Seq<u8>> {
    seq![
        BEGIN_TAG@,
        FORMAT_VERSION@,
        decimal(generation as nat),
        decimal(count as nat),
        decimal(dropped as nat),
        SAMPLE_RATE@,
    ]
}

proof fn lemma_tags()
    ensures
        BEGIN_TAG@ == seq![0x42u8, 0x45u8, 0x47u8, 0x49u8, 0x4eu8],
        FORMAT_VERSION@ == seq![0x31u8],
        SAMPLE_RATE@ == seq![0x33u8, 0x32u8, 0x37u8, 0x36u8, 0x38u8],
        END_TAG@ == seq![0x45u8, 0x4eu8, 0x44u8],
        comma_free(BEGIN_TAG@) && line_safe(BEGIN_TAG@),
        comma_free(FORMAT_VERSION@) && line_safe(FORMAT_VERSION@),
        comma_free(SAMPLE_RATE@) && line_safe(SAMPLE_RATE@),
        comma_free(END_TAG@) && line_safe(END_TAG@),
{
    assert(BEGIN_TAG@ =~= seq![0x42u8, 0x45u8, 0x47u8, 0x49u8, 0x4eu8]);
    assert(FORMAT_VERSION@ =~= seq![0x31u8]);
    assert(SAMPLE_RATE@ =~= seq![0x33u8, 0x32u8, 0x37u8, 0x36u8, 0x38u8]);
    assert(END_TAG@ =~= seq![0x45u8, 0x4eu8, 0x44u8]);
}

#[verifier::spinoff_prover]
#[verifier::rlimit(40)]
proof fn lemma_begin_line(generation: u32, count: usize, dropped: u64)
    ensures
        begin_line_spec(generation, count, dropped) == begin_line_spec(generation, count, dropped).drop_last() + seq![
            NEWLINE,
        ],
        line_safe(begin_line_spec(generation, count, dropped).drop_last()),
        fields_of(begin_line_spec(generation, count, dropped).drop_last()) == begin_fields(generation, count, dropped),
{
    lemma_tags();
    let g = decimal(generation as nat);
    let c = decimal(count as nat);
    let d = decimal(dropped as nat);
    lemma_decimal_digits(generation as nat);
    lemma_decimal_digits(count as nat);
    lemma_decimal_digits(dropped as nat);
    lemma_decimal_line_safe(generation as nat);
    lemma_decimal_line_safe(count as nat);
    lemma_decimal_line_safe(dropped as nat);
    assert(line_safe(comma()));
    let t1 = BEGIN_TAG@ + comma() + FORMAT_VERSION@;
    let t2 = t1 + comma() + g;
    let t3 = t2 + comma() + c;
    let t4 = t3 + comma() + d;
    let t5 = t4 + comma() + SAMPLE_RATE@;
    let line = begin_line_spec(generation, count, dropped);
    assert(line =~= t5 + seq![NEWLINE]);
    assert(line.drop_last() =~= t5);
    lemma_single_field(BEGIN_TAG@);
    lemma_fields_push(BEGIN_TAG@, FORMAT_VERSION@);
    lemma_fields_push(t1, g);
    lemma_fields_push(t2, c);
    lemma_fields_push(t3, d);
    lemma_fields_push(t4, SAMPLE_RATE@);
    assert(fields_of(t5) =~= begin_fields(generation, count, dropped));
    lemma_line_safe_concat(BEGIN_TAG@, comma());
    lemma_line_safe_concat(BEGIN_TAG@ + comma(), FORMAT_VERSION@);
    lemma_line_safe_concat(t1, comma());
    lemma_line_safe_concat(t1 + comma(), g);
    lemma_line_safe_concat(t2, comma());
    lemma_line_safe_concat(t2 + comma(), c);
    lemma_line_safe_concat(t3, comma());
    lemma_line_safe_concat(t3 + comma(), d);
    lemma_line_safe_concat(t4, comma());
    lemma_line_safe_concat(t4 + comma(), SAMPLE_RATE@);
}

#[verifier::spinoff_prover]
#[verifier::rlimit(40)]
proof fn lemma_end_line(count: usize, hash: u32)
    ensures
        end_line_spec(count, hash) == end_line_spec(count, hash).drop_last() + seq![NEWLINE],
        line_safe(end_line_spec(count, hash).drop_last()),
        fields_of(end_line_spec(count, hash).drop_last()) == seq![END_TAG@, decimal(count as nat), hex_digits(hash as nat, 8)],
        parse_unsigned(hex_digits(hash as nat, 8), 16, u32::MAX as nat) == Some(hash as nat),
{
    lemma_tags();
    let c = decimal(count as nat);
    let h = hex_digits(hash as nat, 8);
    lemma_decimal_digits(count as nat);
    lemma_decimal_line_safe(count as nat);
    lemma_hex_digits(hash as nat, 8);
    assert(pow16(8) == 0x1_0000_0000) by {
        reveal_with_fuel(pow16, 9);
    }
    assert(line_safe(comma()));
    let t1 = END_TAG@ + comma() + c;
    let t2 = t1 + comma() + h;
    let line = end_line_spec(count, hash);
    assert(line =~= t2 + seq![NEWLINE]);
    assert(line.drop_last() =~= t2);
    lemma_single_field(END_TAG@);
    lemma_fields_push(END_TAG@, c);
    lemma_fields_push(t1, h);
    assert(fields_of(t2) =~= seq![END_TAG@, c, h]);
    lemma_line_safe_concat(END_TAG@, comma());
    lemma_line_safe_concat(END_TAG@ + comma(), c);
    lemma_line_safe_concat(t1, comma());
    lemma_line_safe_concat(t1 + comma(), h);
}

/// What replaying the row of a sample gives.
pub open spec fn row_outcome(s: Sample) -> RowOutcome {
    RowOutcome {
        state: s.after,
        ticks: s.ticks,
        clears: s.evidence.clears,
        source: recorded_source(s),
        output: recorded_output(s),
    }
}

/// The replay's progress after the first `k` samples.
pub open spec fn progress_after(samples: Seq<Sample>, k: nat) -> ReplayProgress
    decreases k,
{
    if k == 0 {
        start_progress()
    } else {
        advance(progress_after(samples, (k - 1) as nat), row_outcome(samples[k - 1]))
    }
}

/// Samples as a capture records them: each is one decoder step from the state the previous
/// one ended in, they are numbered on from the `dropped` samples before them, and their
/// timestamps do not decrease.
pub open spec fn consistent_capture(dropped: nat, samples: Seq<Sample>) -> bool {
    &&& forall|k: int| 0 <= k < samples.len() ==> is_decoder_step(#[trigger] samples[k])
    &&& forall|k: int| 0 <= k < samples.len() ==> #[trigger] samples[k].number == dropped + k + 1
    &&& forall|k: int|
        0 < k < samples.len() ==> samples[k - 1].ticks <= #[trigger] samples[k].ticks && samples[k].before
            == samples[k - 1].after
}

#[verifier::spinoff_prover]
#[verifier::rlimit(40)]
proof fn lemma_rows_replay(samples: Seq<Sample>, dropped: nat, k: nat)
    requires
        consistent_capture(dropped, samples),
        k <= samples.len(),
    ensures
        replay_rows(row_lines(samples), dropped, k, progress_after(samples, k)) == Some(
            Ok::<ReplayProgress, ReplayError>(progress_after(samples, samples.len())),
        ),
    decreases samples.len() - k,
{
    if k < samples.len() {
        let p = progress_after(samples, k);
        let s = samples[k as int];
        assert(is_decoder_step(s));
        assert(s.number == dropped + k + 1);
        if k > 0 {
            assert(p.state == samples[k - 1].after);
            assert(p.prior_ticks == samples[k - 1].ticks);
            assert(samples[k - 1].ticks <= samples[k as int].ticks);
        }
        law_written_row_replays(s, k, dropped, p.state, p.prior_ticks);
        assert(row_lines(samples)[k as int] == row_line(s));
        assert(progress_after(samples, k + 1) == advance(p, row_outcome(s)));
        lemma_rows_replay(samples, dropped, k + 1);
    }
}

/// The header line and the rows: what the checksum of a dump covers.
pub open spec fn dump_body(samples: Seq<Sample>) -> Seq<u8> {
    HEADER.spec_bytes() + seq![NEWLINE] + rows_text(samples)
}

/// A dump of `samples` (the trace's retained samples, after `dropped` earlier ones) as the
/// diagnostic port sends it: the BEGIN line, the header, one row per sample and the END line
/// with the checksum of the header and the rows.
pub open spec fn exported_log(generation: u32, dropped: u64, samples: Seq<Sample>) -> Seq<u8> {
    begin_line_spec(generation, samples.len() as usize, dropped) + dump_body(samples) + end_line_spec(
        samples.len() as usize,
        fnv1a(FNV_OFFSET_BASIS, dump_body(samples)),
    )
}

/// Export and replay agree: the dump of a capture whose samples are consecutive decoder steps,
/// and whose last sample holds a decision, validates — with its sample count, the samples
/// dropped before it, and the replay's progress after every row (the last row's state,
/// decision source and output, and the clear counts of all rows).
#[verifier::spinoff_prover]
#[verifier::rlimit(80)]
pub proof fn law_exported_log_replays(generation: u32, dropped: u64, samples: Seq<Sample>)
    requires
        1 <= samples.len() <= SAMPLE_CAPACITY,
        consistent_capture(dropped as nat, samples),
        samples.last().decision is Some,
    ensures
        replay_spec(exported_log(generation, dropped, samples)) == Some(
            Ok::<ReplaySummary, ReplayError>(
                ReplaySummary {
                    count: samples.len(),
                    dropped: dropped as nat,
                    progress: progress_after(samples, samples.len()),
                },
            ),
        ),
{
    let n = samples.len();
    let body = dump_body(samples);
    let hash = fnv1a(FNV_OFFSET_BASIS, body);
    let begin = begin_line_spec(generation, n as usize, dropped);
    let end = end_line_spec(n as usize, hash);
    let b = begin.drop_last();
    let e = end.drop_last();
    let hdr = HEADER.spec_bytes();
    let rows = rows_text(samples);
    lemma_begin_line(generation, n as usize, dropped);
    lemma_end_line(n as usize, hash);
    lemma_header();
    lemma_rows_lines(samples);
    lemma_rows_text_ends_a_line(samples);
    let t = exported_log(generation, dropped, samples);
    let tail = e + seq![NEWLINE];
    let middle = hdr + seq![NEWLINE] + (rows + tail);
    assert(t =~= (b + seq![NEWLINE]) + middle);
    lemma_lines_concat(b + seq![NEWLINE], middle);
    lemma_single_line(b);
    lemma_lines_concat(hdr + seq![NEWLINE], rows + tail);
    lemma_single_line(hdr);
    lemma_lines_concat(rows, tail);
    lemma_single_line(e);
    let lines = lines_of(t);
    assert(lines =~= seq![b, hdr] + row_lines(samples) + seq![e]);
    assert(lines.len() == n + 3);
    assert(lines[0] == b);
    assert(lines[1] == hdr);
    assert(lines.last() == e);
    lemma_unsigned_round_trip(n, usize::MAX as nat);
    lemma_unsigned_round_trip(dropped as nat, u64::MAX as nat);
    let checked = lines.subrange(1, lines.len() - 1);
    assert(checked =~= seq![hdr] + row_lines(samples));
    lemma_lines_checksum(checked);
    lemma_joined_prepend(hdr, row_lines(samples));
    lemma_joined_rows(samples);
    assert(joined_lines(checked) == body);
    assert(lines.subrange(2, n + 2 as int) =~= row_lines(samples));
    lemma_rows_replay(samples, dropped as nat, 0);
    let p = progress_after(samples, n);
    assert(p == advance(progress_after(samples, (n - 1) as nat), row_outcome(samples[n - 1])));
    assert(p.last_source == recorded_source(samples.last()));
}

} // verus!
