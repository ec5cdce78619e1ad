//! Instrumented decoder for sampled A/B levels of the left rotary encoder
//! (BM4.0A01, 9 pulses / 18 clicks), used to record and replay diagnostic traces.
//!
//! - A debounces to exactly one event per click: it is the click clock.
//! - Every raw one-bit Gray transition contributes +1 or -1 to signed movement;
//!   bounce contributes opposite pairs and cancels.
//! - When A confirms a click, the sign accumulated from A's first raw departure through
//!   its debounced new level gives the direction ("edge" evidence). If that window has no
//!   signed evidence, the movement across the whole click interval is the fallback, and
//!   with no evidence at all the previous direction ("history") is used.
//! - Once the contacts have been unchanged for the idle time, movement left over from the
//!   previous click is discarded, so it cannot bias the first click after a reversal.
use vstd::prelude::*;
use crate::rotary_decoder::Detent;

verus! {

/// Consecutive identical A samples required before a click is accepted (about 1 ms).
pub const DEBOUNCE_SAMPLES: u8 = 16;

/// Unchanged samples before direction evidence is considered old.
pub const EVIDENCE_IDLE_SAMPLES: u8 = 16;

/// +1 follows the datasheet CW sequence `11 -> 01 -> 00 -> 10 -> 11`; -1 the reverse.
pub const TRANSITION_DELTA: [i8; 16] = [0, -1, 1, 0, 1, 0, 0, -1, -1, 0, 0, 1, 0, 1, -1, 0];

/// Bit of [`Evidence::clears`]: evidence cleared by a confirmed click.
pub const CLEAR_CONFIRM: u8 = 1;
/// Bit of [`Evidence::clears`]: evidence cleared by a cancelled A glitch.
pub const CLEAR_CANCEL: u8 = 2;
/// Bit of [`Evidence::clears`]: interval evidence cleared after idle contacts.
pub const CLEAR_IDLE: u8 = 4;

/// The complete decoder state, as exported in diagnostic logs.
#[derive(Clone, Copy, Debug, PartialEq, Eq, Structural)]
pub struct DecoderState {
    pub stable_a: bool,
    pub candidate_a: bool,
    pub run_a: u8,
    pub previous_state: u8,
    pub unchanged_samples: u8,
    pub tracking_a_edge: bool,
    pub edge_movement: i32,
    pub interval_movement: i32,
    pub last_direction: Option<Detent>,
}

/// What one sample contributed: its signed transition, the edge and interval movement
/// before any clearing, and which clears happened (see `CLEAR_*`).
#[derive(Clone, Copy, Debug, PartialEq, Eq, Structural)]
pub struct Evidence {
    pub delta: i8,
    pub edge_before_clear: i32,
    pub interval_before_clear: i32,
    pub clears: u8,
}

/// Which evidence decided a click.
#[derive(Clone, Copy, Debug, PartialEq, Eq, Structural)]
pub enum DecisionSource {
    Edge,
    Interval,
    History,
    Unknown,
}

/// One confirmed A transition and how its direction was decided.
#[derive(Clone, Copy, Debug, PartialEq, Eq, Structural)]
pub struct Decision {
    pub source: DecisionSource,
    pub output: Option<Detent>,
    pub old_a: bool,
    pub new_a: bool,
    pub observed_a: bool,
    pub observed_b: bool,
    pub edge_movement: i32,
    pub interval_movement: i32,
    pub previous_direction: Option<Detent>,
}

/// The two input levels as a 2-bit state `AB`.
pub open spec fn encode_spec(a: bool, b: bool) -> u8 {
    ((if a { 2u8 } else { 0u8 }) + (if b { 1u8 } else { 0u8 })) as u8
}

/// Signed movement of one sampled transition: +1 / -1 for a one-bit Gray step
/// in the clockwise / counter-clockwise direction, 0 for no or a two-bit change.
pub open spec fn transition_delta(from: u8, to: u8) -> int {
    if from == to || (from ^ to) == 3 {
        0
    } else if (from == 3 && to == 1) || (from == 1 && to == 0) || (from == 0 && to == 2) || (from == 2 && to == 3) {
        1
    } else {
        -1
    }
}

pub open spec fn sign_direction(movement: int, fallback: Option<Detent>) -> Option<Detent> {
    if movement > 0 {
        Some(Detent::Clockwise)
    } else if movement < 0 {
        Some(Detent::CounterClockwise)
    } else {
        fallback
    }
}

/// The `i32` movement sums stay in range on sample `(a, b)`.
pub open spec fn update_in_range(s: DecoderState, a: bool, b: bool) -> bool {
    let delta = transition_delta(s.previous_state, encode_spec(a, b));
    &&& s.previous_state < 4
    &&& i32::MIN <= s.interval_movement + delta <= i32::MAX
    &&& s.tracking_a_edge ==> i32::MIN <= s.edge_movement + delta <= i32::MAX
}

/// One decoder step on input `(a, b)`: next state, evidence, decision and output.
pub open spec fn sample_step(s: DecoderState, a: bool, b: bool) -> (DecoderState, Evidence, Option<Decision>, Option<Detent>) {
    let state = encode_spec(a, b);
    let unchanged: u8 = if state == s.previous_state {
        if s.unchanged_samples == 255 { 255u8 } else { (s.unchanged_samples + 1) as u8 }
    } else {
        0u8
    };
    let delta = transition_delta(s.previous_state, state);
    let interval = s.interval_movement + delta;
    let starts = !s.tracking_a_edge && a != s.stable_a;
    let tracking = s.tracking_a_edge || starts;
    let edge = if starts { delta } else if s.tracking_a_edge { s.edge_movement + delta } else { s.edge_movement as int };
    let (candidate, run) = if a == s.candidate_a {
        (s.candidate_a, if s.run_a == 255 { 255u8 } else { (s.run_a + 1) as u8 })
    } else {
        (a, 1u8)
    };
    let evidence_before = Evidence { delta: delta as i8, edge_before_clear: edge as i32, interval_before_clear: interval as i32, clears: 0 };
    if run >= DEBOUNCE_SAMPLES && candidate != s.stable_a {
        let direction = sign_direction(if edge != 0 { edge } else { interval }, s.last_direction);
        let source = if edge != 0 {
            DecisionSource::Edge
        } else if interval != 0 {
            DecisionSource::Interval
        } else if s.last_direction is Some {
            DecisionSource::History
        } else {
            DecisionSource::Unknown
        };
        let decision = Decision {
            source,
            output: direction,
            old_a: s.stable_a,
            new_a: candidate,
            observed_a: a,
            observed_b: b,
            edge_movement: edge as i32,
            interval_movement: interval as i32,
            previous_direction: s.last_direction,
        };
        (
            DecoderState {
                stable_a: candidate,
                candidate_a: candidate,
                run_a: run,
                previous_state: state,
                unchanged_samples: unchanged,
                tracking_a_edge: false,
                edge_movement: 0,
                interval_movement: 0,
                last_direction: if direction is Some { direction } else { s.last_direction },
            },
            Evidence { clears: CLEAR_CONFIRM, ..evidence_before },
            Some(decision),
            direction,
        )
    } else {
        let cancel = tracking && run >= DEBOUNCE_SAMPLES && candidate == s.stable_a;
        let idle = unchanged >= EVIDENCE_IDLE_SAMPLES;
        (
            DecoderState {
                stable_a: s.stable_a,
                candidate_a: candidate,
                run_a: run,
                previous_state: state,
                unchanged_samples: unchanged,
                tracking_a_edge: tracking && !cancel,
                edge_movement: if cancel { 0 } else { edge as i32 },
                interval_movement: if cancel || idle { 0 } else { interval as i32 },
                last_direction: s.last_direction,
            },
            Evidence {
                clears: ((if cancel { CLEAR_CANCEL } else { 0u8 }) + (if idle { CLEAR_IDLE } else { 0u8 })) as u8,
                ..evidence_before
            },
            None,
            None,
        )
    }
}

/// The initial state for resting levels `(a, b)`: settled and idle, with no history.
pub open spec fn initial_state(a: bool, b: bool) -> DecoderState {
    DecoderState {
        stable_a: a,
        candidate_a: a,
        run_a: DEBOUNCE_SAMPLES,
        previous_state: encode_spec(a, b),
        unchanged_samples: EVIDENCE_IDLE_SAMPLES,
        tracking_a_edge: false,
        edge_movement: 0,
        interval_movement: 0,
        last_direction: None,
    }
}

pub open spec fn no_evidence() -> Evidence {
    Evidence { delta: 0, edge_before_clear: 0, interval_before_clear: 0, clears: 0 }
}

pub struct ClockedDetentDecoder {
    state: DecoderState,
    evidence: Evidence,
    decision: Option<Decision>,
}

fn encode(a_high: bool, b_high: bool) -> (r: u8)
    ensures
        r == encode_spec(a_high, b_high),
        r < 4,
{
    (if a_high { 2 } else { 0 }) + (if b_high { 1 } else { 0 })
}

fn delta_of(from: u8, to: u8) -> (r: i8)
    requires
        from < 4,
        to < 4,
    ensures
        r as int == transition_delta(from, to),
{
    let table = TRANSITION_DELTA;
    let index = ((from as usize) << 2) | to as usize;
    proof {
        assert(from < 4 && to < 4 ==> ((from as usize) << 2) | (to as usize) == from as usize * 4 + to as usize)
            by (bit_vector);
        assert(from < 4 && to < 4 ==> ((from ^ to) == 3 <==> ((from == 0 && to == 3) || (from == 3 && to == 0) || (from == 1 && to == 2) || (from == 2 && to == 1)))) by (bit_vector);
    }
    table[index]
}

impl ClockedDetentDecoder {
    /// The decoder's state.
    pub closed spec fn state_spec(&self) -> DecoderState {
        self.state
    }

    /// The evidence of the last sample.
    pub closed spec fn evidence_spec(&self) -> Evidence {
        self.evidence
    }

    /// The decision of the last sample, until it is taken.
    pub closed spec fn decision_spec(&self) -> Option<Decision> {
        self.decision
    }

    /// A settled decoder at resting levels `(a_high, b_high)`.
    pub fn new(a_high: bool, b_high: bool) -> (r: Self)
        ensures
            r.state_spec() == initial_state(a_high, b_high),
            r.evidence_spec() == no_evidence(),
            r.decision_spec() is None,
    {
        Self::from_state(DecoderState {
            stable_a: a_high,
            candidate_a: a_high,
            run_a: DEBOUNCE_SAMPLES,
            previous_state: encode(a_high, b_high),
            unchanged_samples: EVIDENCE_IDLE_SAMPLES,
            tracking_a_edge: false,
            edge_movement: 0,
            interval_movement: 0,
            last_direction: None,
        })
    }

    /// A decoder resumed from an exported state (for replaying a trace).
    pub fn from_state(state: DecoderState) -> (r: Self)
        ensures
            r.state_spec() == state,
            r.evidence_spec() == no_evidence(),
            r.decision_spec() is None,
    {
        Self { state, evidence: Evidence { delta: 0, edge_before_clear: 0, interval_before_clear: 0, clears: 0 }, decision: None }
    }

    pub fn state(&self) -> (r: DecoderState)
        ensures
            r == self.state_spec(),
    {
        self.state
    }

    pub fn evidence(&self) -> (r: Evidence)
        ensures
            r == self.evidence_spec(),
    {
        self.evidence
    }

    /// The decision made by the last sample, once.
    pub fn take_decision(&mut self) -> (r: Option<Decision>)
        ensures
            r == old(self).decision_spec(),
            final(self).decision_spec() is None,
            final(self).state_spec() == old(self).state_spec(),
            final(self).evidence_spec() == old(self).evidence_spec(),
    {
        let d = self.decision;
        self.decision = None;
        d
    }

    /// True once all pending edge and direction evidence has settled.
    pub fn is_idle(&self) -> (r: bool)
        ensures
            r == (self.state_spec().unchanged_samples >= EVIDENCE_IDLE_SAMPLES && !self.state_spec().tracking_a_edge),
    {
        self.state.unchanged_samples >= EVIDENCE_IDLE_SAMPLES && !self.state.tracking_a_edge
    }

    /// Whether [`Self::update`] can take the sample `(a_high, b_high)`: the movement sums
    /// stay within `i32`.
    pub fn accepts(&self, a_high: bool, b_high: bool) -> (r: bool)
        ensures
            r == update_in_range(self.state_spec(), a_high, b_high),
    {
        let s = self.state;
        if s.previous_state >= 4 {
            return false;
        }
        let delta = delta_of(s.previous_state, encode(a_high, b_high)) as i64;
        let interval = s.interval_movement as i64 + delta;
        let edge = s.edge_movement as i64 + delta;
        let interval_fits = i32::MIN as i64 <= interval && interval <= i32::MAX as i64;
        let edge_fits = !s.tracking_a_edge || (i32::MIN as i64 <= edge && edge <= i32::MAX as i64);
        interval_fits && edge_fits
    }

    /// Feeds one raw sample; a debounced A transition emits one detent (see [`sample_step`]).
    pub fn update(&mut self, a_high: bool, b_high: bool) -> (r: Option<Detent>)
        requires
            update_in_range(old(self).state_spec(), a_high, b_high),
        ensures
            ({
                let (s, e, d, out) = sample_step(old(self).state_spec(), a_high, b_high);
                &&& final(self).state_spec() == s
                &&& final(self).evidence_spec() == e
                &&& final(self).decision_spec() == d
                &&& r == out
            }),
    {
        let s = self.state;
        let state = encode(a_high, b_high);
        let unchanged = if state == s.previous_state {
            if s.unchanged_samples == 255 { 255 } else { s.unchanged_samples + 1 }
        } else {
            0
        };
        let delta = delta_of(s.previous_state, state);
        let interval = s.interval_movement + delta as i32;
        let mut tracking = s.tracking_a_edge;
        let mut edge = s.edge_movement;
        if !s.tracking_a_edge && a_high != s.stable_a {
            tracking = true;
            edge = delta as i32;
        } else if s.tracking_a_edge {
            edge = s.edge_movement + delta as i32;
        }
        let (candidate, run) = if a_high == s.candidate_a {
            (s.candidate_a, if s.run_a == 255 { 255 } else { s.run_a + 1 })
        } else {
            (a_high, 1)
        };
        let evidence = Evidence { delta, edge_before_clear: edge, interval_before_clear: interval, clears: 0 };

        if run >= DEBOUNCE_SAMPLES && candidate != s.stable_a {
            let movement = if edge != 0 { edge } else { interval };
            let direction = if movement > 0 {
                Some(Detent::Clockwise)
            } else if movement < 0 {
                Some(Detent::CounterClockwise)
            } else {
                s.last_direction
            };
            let source = if edge != 0 {
                DecisionSource::Edge
            } else if interval != 0 {
                DecisionSource::Interval
            } else if s.last_direction.is_some() {
                DecisionSource::History
            } else {
                DecisionSource::Unknown
            };
            self.decision = Some(Decision {
                source,
                output: direction,
                old_a: s.stable_a,
                new_a: candidate,
                observed_a: a_high,
                observed_b: b_high,
                edge_movement: edge,
                interval_movement: interval,
                previous_direction: s.last_direction,
            });
            self.state = DecoderState {
                stable_a: candidate,
                candidate_a: candidate,
                run_a: run,
                previous_state: state,
                unchanged_samples: unchanged,
                tracking_a_edge: false,
                edge_movement: 0,
                interval_movement: 0,
                last_direction: if direction.is_some() { direction } else { s.last_direction },
            };
            self.evidence = Evidence { clears: CLEAR_CONFIRM, ..evidence };
            return direction;
        }

        // A glitch returned to its accepted level instead of becoming a click: close both
        // evidence windows so an uncancelled interval sum cannot be reused by the next click.
        let cancel = tracking && run >= DEBOUNCE_SAMPLES && candidate == s.stable_a;
        // A completed click can leave a trailing B transition; once the contacts settle,
        // that evidence belongs to the old click and must not survive into a later reversal.
        let idle = unchanged >= EVIDENCE_IDLE_SAMPLES;
        self.decision = None;
        self.state = DecoderState {
            stable_a: s.stable_a,
            candidate_a: candidate,
            run_a: run,
            previous_state: state,
            unchanged_samples: unchanged,
            tracking_a_edge: tracking && !cancel,
            edge_movement: if cancel { 0 } else { edge },
            interval_movement: if cancel || idle { 0 } else { interval },
            last_direction: s.last_direction,
        };
        self.evidence = Evidence {
            clears: (if cancel { CLEAR_CANCEL } else { 0 }) + (if idle { CLEAR_IDLE } else { 0 }),
            ..evidence
        };
        None
    }
}

/// A click is emitted exactly when A's debounced level changes, and only then; its direction
/// is the sign of the evidence (edge, else interval) or, without evidence, the previous direction.
pub proof fn law_output_only_on_confirmed_a_change(s: DecoderState, a: bool, b: bool)
    ensures
        ({
            let (t, _, d, out) = sample_step(s, a, b);
            &&& d is Some <==> t.stable_a != s.stable_a
            &&& out is Some ==> d is Some && d->0.output == out
            &&& d matches Some(dec) ==> dec.new_a == a && dec.old_a == s.stable_a && dec.output == out
            &&& d matches Some(dec) ==> (dec.source == DecisionSource::Unknown <==> out is None)
        }),
{
}

/// A decision's source records exactly which evidence decided it.
pub proof fn law_decision_source_matches_evidence(s: DecoderState, a: bool, b: bool)
    requires
        update_in_range(s, a, b),
    ensures
        ({
            let (_, _, d, out) = sample_step(s, a, b);
            d matches Some(dec) ==> match dec.source {
                DecisionSource::Edge => dec.edge_movement != 0 && out == sign_direction(dec.edge_movement as int, None),
                DecisionSource::Interval => dec.edge_movement == 0 && dec.interval_movement != 0
                    && out == sign_direction(dec.interval_movement as int, None),
                DecisionSource::History => dec.edge_movement == 0 && dec.interval_movement == 0
                    && out == dec.previous_direction && out is Some,
                DecisionSource::Unknown => dec.edge_movement == 0 && dec.interval_movement == 0 && out is None,
            }
        }),
{
}

} // verus!
