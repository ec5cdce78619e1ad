//! What the replay check guarantees of every log it accepts, and so which damaged, edited or
//! reordered logs it rejects.
use vstd::prelude::*;
use crate::log_text::{fields_of, find, lemma_find, lemma_find_bounds, lines_of, strip_cr, CARRIAGE_RETURN, NEWLINE};
use crate::replay::{
    bool_field, parse_state_fields, replay_rows, replay_spec, row_step, u64_field, ReplayError, ReplayProgress,
    ReplaySummary, END_TAG,
};
use crate::rotary_log::{decimal, direction_code, signed_decimal, source_letter};
use crate::rotary_sampled_decoder::{sample_step, update_in_range};

verus! {

/// Whether `r` is an accepted replay.
pub open spec fn accepted(r: Option<Result<ReplaySummary, ReplayError>>) -> bool {
    r matches Some(Ok(_))
}

/// The number of samples a log says were dropped before its rows (its `BEGIN` line's fifth field).
pub open spec fn log_dropped(t: Seq<u8>) -> nat {
    u64_field(fields_of(lines_of(t)[0])[4])->0
}

/// The row with fields `f` carries sample number `number`, and what it records after its inputs
/// (the decoder state after the sample, the evidence, the decision source and the output) is
/// what the decoder computes from its inputs (the levels A and B and the state before).
pub open spec fn row_replays(f: Seq<Seq<u8>>, number: int) -> bool {
    &&& f.len() == 28
    &&& u64_field(f[0]) matches Some(n) && n == number
    &&& bool_field(f[2]) is Some
    &&& bool_field(f[3]) is Some
    &&& match parse_state_fields(f.subrange(4, 13)) {
        Ok(before) => {
            let a = bool_field(f[2])->0;
            let b = bool_field(f[3])->0;
            let (s, e, d, out) = sample_step(before, a, b);
            let src = match d {
                Some(dec) => Some(dec.source),
                None => None,
            };
            &&& update_in_range(before, a, b)
            &&& parse_state_fields(f.subrange(13, 22)) == Ok::<_, ReplayError>(s)
            &&& f[22] == signed_decimal(e.delta as int)
            &&& f[23] == signed_decimal(e.edge_before_clear as int)
            &&& f[24] == signed_decimal(e.interval_before_clear as int)
            &&& f[25] == decimal(e.clears as nat)
            &&& f[26] == seq![source_letter(src)]
            &&& f[27] == signed_decimal(direction_code(out) as int)
        },
        Err(_) => false,
    }
}

proof fn lemma_rows_replay(rows: Seq<Seq<u8>>, dropped: nat, index: nat, p: ReplayProgress)
    requires
        replay_rows(rows, dropped, index, p) matches Some(Ok(_)),
    ensures
        forall|k: int| index <= k < rows.len() ==> row_replays(#[trigger] fields_of(rows[k]), dropped + k + 1),
    decreases rows.len() - index,
{
    if index < rows.len() {
        let f = fields_of(rows[index as int]);
        match row_step(f, index, dropped, p.state, p.prior_ticks) {
            Some(Ok(o)) => {
                assert(row_replays(f, (dropped + index + 1) as int));
                lemma_rows_replay(rows, dropped, index + 1, crate::replay::advance(p, o));
            },
            _ => {},
        }
    }
}

/// Every row of an accepted log is numbered in order after the dropped samples, and records
/// what the decoder computes from the row's own inputs.
pub proof fn law_accepted_rows_replay(t: Seq<u8>, k: int)
    requires
        accepted(replay_spec(t)),
        0 <= k < lines_of(t).len() - 3,
    ensures
        row_replays(fields_of(lines_of(t)[k + 2]), log_dropped(t) + k + 1),
{
    let lines = lines_of(t);
    let count = lines.len() - 3;
    let rows = lines.subrange(2, count + 2);
    lemma_rows_replay(rows, log_dropped(t), 0, crate::replay::start_progress());
    assert(rows[k] == lines[k + 2]);
}

/// Two rows of an accepted log swapped (with the `END` line written anew or not): the log is
/// rejected.
pub proof fn law_swapped_rows_are_rejected(t: Seq<u8>, swapped: Seq<u8>, i: int, j: int)
    requires
        accepted(replay_spec(t)),
        lines_of(swapped).len() == lines_of(t).len(),
        lines_of(swapped)[0] == lines_of(t)[0],
        2 <= i < j < lines_of(t).len() - 1,
        lines_of(swapped)[i] == lines_of(t)[j],
    ensures
        !accepted(replay_spec(swapped)),
{
    law_accepted_rows_replay(t, j - 2);
    if accepted(replay_spec(swapped)) {
        law_accepted_rows_replay(swapped, i - 2);
        assert(log_dropped(swapped) == log_dropped(t));
    }
}

/// A row of an accepted log whose recorded evidence, decision source or output (fields 22 to 27)
/// is changed, its inputs kept (with the `END` line written anew or not): the log is rejected.
pub proof fn law_changed_decision_is_rejected(t: Seq<u8>, changed: Seq<u8>, k: int, m: int, value: Seq<u8>)
    requires
        accepted(replay_spec(t)),
        lines_of(changed).len() == lines_of(t).len(),
        lines_of(changed)[0] == lines_of(t)[0],
        2 <= k < lines_of(t).len() - 1,
        22 <= m < 28,
        fields_of(lines_of(changed)[k]) == fields_of(lines_of(t)[k]).update(m, value),
        value != fields_of(lines_of(t)[k])[m],
    ensures
        !accepted(replay_spec(changed)),
{
    law_accepted_rows_replay(t, k - 2);
    if accepted(replay_spec(changed)) {
        law_accepted_rows_replay(changed, k - 2);
        let f = fields_of(lines_of(t)[k]);
        let g = fields_of(lines_of(changed)[k]);
        assert(g.subrange(4, 13) =~= f.subrange(4, 13));
        assert(g[2] == f[2] && g[3] == f[3]);
    }
}

/// A log whose last line is not an `END` line is rejected.
pub proof fn law_log_without_end_is_rejected(t: Seq<u8>)
    requires
        lines_of(t).len() > 0 ==> fields_of(lines_of(t).last())[0] != END_TAG@,
    ensures
        replay_spec(t) matches Some(Err(_)),
{
}

proof fn lemma_lines_final_newline(t: Seq<u8>)
    requires
        t.len() > 0,
        t.last() != NEWLINE,
        t.last() != CARRIAGE_RETURN,
    ensures
        lines_of(t.push(NEWLINE)) == lines_of(t),
    decreases t.len(),
{
    reveal(lines_of);
    let u = t.push(NEWLINE);
    let i = find(t, NEWLINE);
    lemma_find_bounds(t, NEWLINE);
    if i < t.len() {
        assert forall|x: int| 0 <= x < i implies u[x] != NEWLINE by {
            assert(u[x] == t[x]);
        }
        lemma_find(u, NEWLINE, i);
        let rest = t.subrange(i + 1, t.len() as int);
        assert(i + 1 < t.len());
        assert(u.subrange(i + 1, u.len() as int) =~= rest.push(NEWLINE));
        assert(u.subrange(0, i) =~= t.subrange(0, i));
        assert(rest.last() == t.last());
        lemma_lines_final_newline(rest);
    } else {
        assert forall|x: int| 0 <= x < t.len() implies u[x] != NEWLINE by {
            assert(u[x] == t[x]);
        }
        lemma_find(u, NEWLINE, t.len() as int);
        assert(u.subrange(0, t.len() as int) =~= t);
        assert(u.subrange(t.len() as int + 1, u.len() as int) =~= Seq::<u8>::empty());
        assert(lines_of(Seq::<u8>::empty()) == Seq::<Seq<u8>>::empty());
        assert(strip_cr(t) == t);
        assert(seq![t] + Seq::<Seq<u8>>::empty() =~= seq![t]);
    }
}

/// The final line ending is optional: a log reads the same with or without a newline after
/// its last line (a log ending in neither a newline nor a carriage return).
pub proof fn law_final_newline_is_optional(t: Seq<u8>)
    requires
        t.len() > 0,
        t.last() != NEWLINE,
        t.last() != CARRIAGE_RETURN,
    ensures
        replay_spec(t.push(NEWLINE)) == replay_spec(t),
{
    lemma_lines_final_newline(t);
}

/// The timestamp (second field) of row `k` of `rows`.
pub open spec fn row_ticks(rows: Seq<Seq<u8>>, k: int) -> nat {
    u64_field(fields_of(rows[k])[1])->0
}

proof fn lemma_rows_ticks(rows: Seq<Seq<u8>>, dropped: nat, index: nat, p: ReplayProgress)
    requires
        replay_rows(rows, dropped, index, p) matches Some(Ok(_)),
    ensures
        index < rows.len() ==> row_ticks(rows, index as int) >= p.prior_ticks,
        forall|k: int| index < k < rows.len() ==> #[trigger] row_ticks(rows, k) >= row_ticks(rows, k - 1),
    decreases rows.len() - index,
{
    if index < rows.len() {
        let f = fields_of(rows[index as int]);
        match row_step(f, index, dropped, p.state, p.prior_ticks) {
            Some(Ok(o)) => {
                let q = crate::replay::advance(p, o);
                assert(q.prior_ticks == row_ticks(rows, index as int));
                lemma_rows_ticks(rows, dropped, index + 1, q);
            },
            _ => {},
        }
    }
}

/// Time never runs backwards in an accepted log: each row's timestamp is at least the
/// previous row's (and the first is not negative), so a log with a row stamped before its
/// predecessor is rejected.
pub proof fn law_accepted_timestamps_never_decrease(t: Seq<u8>, k: int)
    requires
        accepted(replay_spec(t)),
        0 < k < lines_of(t).len() - 3,
    ensures
        u64_field(fields_of(lines_of(t)[k + 2])[1])->0 >= u64_field(fields_of(lines_of(t)[k + 1])[1])->0,
{
    let lines = lines_of(t);
    let count = lines.len() - 3;
    let rows = lines.subrange(2, count + 2);
    lemma_rows_ticks(rows, log_dropped(t), 0, crate::replay::start_progress());
    assert(rows[k] == lines[k + 2]);
    assert(rows[k - 1] == lines[k + 1]);
    assert(row_ticks(rows, k) >= row_ticks(rows, k - 1));
}

} // verus!
