//! Bounded diagnostic storage. Samples are decoder `update()` calls, not electrical edges.
//!
//! Once armed, every sample is kept in a ring of the last `SAMPLE_CAPACITY` samples and every
//! decision in a ring of the last `DECISION_CAPACITY` records. The trace freezes on the first
//! decision that matches its trigger, and later samples are ignored until it is armed again.
use vstd::prelude::*;
use crate::rotary_sampled_decoder::{
    law_decision_source_matches_evidence, sample_step, update_in_range, Decision, DecisionSource, DecoderState, Evidence,
};

verus! {

pub const DECISION_CAPACITY: usize = 32;
pub const SAMPLE_CAPACITY: usize = 512;

#[derive(Clone, Copy, Debug, PartialEq, Eq, Structural)]
pub enum CaptureState {
    Disarmed,
    Armed,
    Frozen,
}

/// When an armed trace freezes.
#[derive(Clone, Copy, Debug, PartialEq, Eq, Structural)]
pub enum Trigger {
    /// On a decision without movement evidence (history or unknown direction).
    Ambiguous,
    /// On the next decision of any kind.
    NextConfirmation,
}

/// One decoder update: input levels, decoder state around it, evidence and decision.
#[derive(Clone, Copy, Debug, PartialEq, Eq, Structural)]
pub struct Sample {
    pub number: u64,
    pub ticks: u64,
    pub a: bool,
    pub b: bool,
    pub before: DecoderState,
    pub after: DecoderState,
    pub evidence: Evidence,
    pub decision: Option<Decision>,
}

/// One decision with the sample that made it.
#[derive(Clone, Copy, Debug, PartialEq, Eq, Structural)]
pub struct Record {
    pub number: u64,
    pub sample: Sample,
    pub decision: Decision,
}

/// Whether a decision freezes a trace armed with `trigger`.
pub open spec fn freezes(trigger: Trigger, decision: Decision) -> bool {
    trigger == Trigger::NextConfirmation || decision.source == DecisionSource::History
        || decision.source == DecisionSource::Unknown
}

/// The decision records kept after `record` joins `records`: the newest
/// [`DECISION_CAPACITY`] of them, oldest first.
pub open spec fn keep_record(records: Seq<Record>, record: Record) -> Seq<Record> {
    if records.len() < DECISION_CAPACITY {
        records.push(record)
    } else {
        records.drop_first().push(record)
    }
}

/// The decision records kept of `history` (oldest first), added one by one to a trace that
/// kept none.
pub open spec fn kept_records(history: Seq<Record>) -> Seq<Record>
    decreases history.len(),
{
    if history.len() == 0 {
        Seq::empty()
    } else {
        keep_record(kept_records(history.drop_last()), history.last())
    }
}

/// The record `age` decisions before the newest of `records`, if there is one.
pub open spec fn newest(records: Seq<Record>, age: int) -> Option<Record> {
    if 0 <= age < records.len() {
        Some(records[records.len() - 1 - age])
    } else {
        None
    }
}

proof fn lemma_kept_records(history: Seq<Record>)
    ensures
        kept_records(history) == history.subrange(
            if history.len() < DECISION_CAPACITY { 0 } else { history.len() - DECISION_CAPACITY },
            history.len() as int,
        ),
    decreases history.len(),
{
    if history.len() > 0 {
        let rest = history.drop_last();
        lemma_kept_records(rest);
        let start = if history.len() < DECISION_CAPACITY { 0 } else { history.len() - DECISION_CAPACITY };
        let rest_start = if rest.len() < DECISION_CAPACITY { 0 } else { rest.len() - DECISION_CAPACITY };
        if rest.len() < DECISION_CAPACITY {
            assert(rest.subrange(rest_start, rest.len() as int).push(history.last()) =~= history.subrange(
                start,
                history.len() as int,
            ));
        } else {
            assert(rest.subrange(rest_start, rest.len() as int).drop_first().push(history.last())
                =~= history.subrange(start, history.len() as int));
        }
    } else {
        assert(history.subrange(0, 0) =~= Seq::<Record>::empty());
    }
}

/// After the decisions `history` since arming (oldest first), [`Trace::latest`] with `age`
/// gives the `age`-th newest of them, and nothing once `age` reaches the number of decisions or
/// the [`DECISION_CAPACITY`] records kept.
pub proof fn law_latest_is_age_th_newest(history: Seq<Record>, age: int)
    ensures
        newest(kept_records(history), age) == if 0 <= age < history.len() && age < DECISION_CAPACITY {
            Some(history[history.len() - 1 - age])
        } else {
            None
        },
{
    lemma_kept_records(history);
}

pub struct Trace {
    pub samples: Vec<Option<Sample>>,
    pub records: Vec<Option<Record>>,
    pub sample_count: u64,
    pub decision_count: u64,
    pub state: CaptureState,
    pub trigger: Trigger,
    pub generation: u32,
}

pub open spec fn retained_count(count: nat, capacity: nat) -> nat {
    if count < capacity { count } else { capacity }
}

/// Ring position of the `j`-th retained entry (oldest first) of `count` entries.
pub open spec fn ring_slot(count: nat, capacity: nat, j: int) -> int {
    (count - retained_count(count, capacity) + j) % (capacity as int)
}

impl Trace {
    pub open spec fn wf(&self) -> bool {
        &&& self.samples@.len() == SAMPLE_CAPACITY
        &&& self.records@.len() == DECISION_CAPACITY
        &&& forall|j: int| 0 <= j < retained_count(self.sample_count as nat, SAMPLE_CAPACITY as nat)
            ==> (#[trigger] self.samples@[ring_slot(self.sample_count as nat, SAMPLE_CAPACITY as nat, j)]) is Some
        &&& forall|j: int| 0 <= j < retained_count(self.decision_count as nat, DECISION_CAPACITY as nat)
            ==> (#[trigger] self.records@[ring_slot(self.decision_count as nat, DECISION_CAPACITY as nat, j)]) is Some
    }

    /// The retained samples, oldest first.
    pub open spec fn retained(&self) -> Seq<Sample> {
        Seq::new(
            retained_count(self.sample_count as nat, SAMPLE_CAPACITY as nat),
            |j: int| self.samples@[ring_slot(self.sample_count as nat, SAMPLE_CAPACITY as nat, j)]->0,
        )
    }

    /// The retained decision records, oldest first.
    pub open spec fn retained_records(&self) -> Seq<Record> {
        Seq::new(
            retained_count(self.decision_count as nat, DECISION_CAPACITY as nat),
            |j: int| self.records@[ring_slot(self.decision_count as nat, DECISION_CAPACITY as nat, j)]->0,
        )
    }

    pub fn new() -> (r: Self)
        ensures
            r.wf(),
            r.state == CaptureState::Disarmed,
            r.sample_count == 0,
            r.decision_count == 0,
            r.generation == 0,
    {
        let mut samples: Vec<Option<Sample>> = Vec::new();
        let mut i: usize = 0;
        while i < SAMPLE_CAPACITY
            invariant
                i <= SAMPLE_CAPACITY,
                samples@.len() == i,
            decreases SAMPLE_CAPACITY - i,
        {
            samples.push(None);
            i = i + 1;
        }
        let mut records: Vec<Option<Record>> = Vec::new();
        let mut i: usize = 0;
        while i < DECISION_CAPACITY
            invariant
                i <= DECISION_CAPACITY,
                records@.len() == i,
            decreases DECISION_CAPACITY - i,
        {
            records.push(None);
            i = i + 1;
        }
        Self {
            samples,
            records,
            sample_count: 0,
            decision_count: 0,
            state: CaptureState::Disarmed,
            trigger: Trigger::Ambiguous,
            generation: 0,
        }
    }

    /// Starts a new capture: discards what was kept and records until `trigger` matches.
    pub fn arm(&mut self, trigger: Trigger)
        requires
            old(self).wf(),
        ensures
            final(self).wf(),
            final(self).state == CaptureState::Armed,
            final(self).trigger == trigger,
            final(self).sample_count == 0,
            final(self).decision_count == 0,
            final(self).generation == old(self).generation.wrapping_add(1),
            final(self).retained() == Seq::<Sample>::empty(),
    {
        self.sample_count = 0;
        self.decision_count = 0;
        self.state = CaptureState::Armed;
        self.trigger = trigger;
        self.generation = self.generation.wrapping_add(1);
        proof {
            assert(self.retained() =~= Seq::<Sample>::empty());
        }
    }

    /// Number of retained samples.
    pub fn len(&self) -> (r: usize)
        ensures
            r == retained_count(self.sample_count as nat, SAMPLE_CAPACITY as nat),
    {
        if self.sample_count < SAMPLE_CAPACITY as u64 {
            self.sample_count as usize
        } else {
            SAMPLE_CAPACITY
        }
    }

    /// Number of samples recorded since arming that are no longer retained.
    pub fn dropped(&self) -> (r: u64)
        ensures
            r == self.sample_count - retained_count(self.sample_count as nat, SAMPLE_CAPACITY as nat),
    {
        self.sample_count - self.len() as u64
    }

    /// The `index`-th retained sample, oldest first.
    pub fn sample(&self, index: usize) -> (r: Option<Sample>)
        requires
            self.wf(),
        ensures
            r == if index < self.retained().len() { Some(self.retained()[index as int]) } else { None::<Sample> },
    {
        let len = self.len();
        if index >= len {
            return None;
        }
        let slot = ((self.dropped() + index as u64) % SAMPLE_CAPACITY as u64) as usize;
        proof {
            assert(slot == ring_slot(self.sample_count as nat, SAMPLE_CAPACITY as nat, index as int));
            assert(self.samples@[slot as int] is Some);
        }
        self.samples[slot]
    }

    /// The decision record `age` decisions before the latest one.
    pub fn latest(&self, age: u64) -> (r: Option<Record>)
        requires
            self.wf(),
        ensures
            r == newest(self.retained_records(), age as int),
    {
        if self.decision_count <= age || age >= DECISION_CAPACITY as u64 {
            return None;
        }
        let slot = ((self.decision_count - 1 - age) % DECISION_CAPACITY as u64) as usize;
        proof {
            let n = retained_count(self.decision_count as nat, DECISION_CAPACITY as nat);
            let j = n - 1 - age;
            assert(self.decision_count - n + j == self.decision_count - 1 - age);
            assert(slot == ring_slot(self.decision_count as nat, DECISION_CAPACITY as nat, j));
            assert(self.records@[slot as int] is Some);
        }
        self.records[slot]
    }

    /// Records one sample while armed (numbering it), keeps its decision, and freezes
    /// on a decision that matches the trigger. Disarmed and frozen traces ignore samples.
    pub fn push(&mut self, sample: Sample)
        requires
            old(self).wf(),
            old(self).sample_count < u64::MAX,
            old(self).decision_count < u64::MAX,
        ensures
            final(self).wf(),
            final(self).trigger == old(self).trigger,
            final(self).generation == old(self).generation,
            old(self).state != CaptureState::Armed ==> *final(self) == *old(self),
            old(self).state == CaptureState::Armed ==> {
                let stamped = Sample { number: (old(self).sample_count + 1) as u64, ..sample };
                &&& final(self).sample_count == old(self).sample_count + 1
                &&& final(self).retained() == if old(self).retained().len() < SAMPLE_CAPACITY {
                    old(self).retained().push(stamped)
                } else {
                    old(self).retained().drop_first().push(stamped)
                }
                &&& match sample.decision {
                    None => {
                        &&& final(self).decision_count == old(self).decision_count
                        &&& final(self).retained_records() == old(self).retained_records()
                        &&& final(self).state == CaptureState::Armed
                    },
                    Some(d) => {
                        let record = Record { number: (old(self).decision_count + 1) as u64, sample: stamped, decision: d };
                        &&& final(self).decision_count == old(self).decision_count + 1
                        &&& final(self).retained_records() == keep_record(old(self).retained_records(), record)
                        &&& final(self).state == if freezes(old(self).trigger, d) {
                            CaptureState::Frozen
                        } else {
                            CaptureState::Armed
                        }
                    },
                }
            },
    {
        if self.state != CaptureState::Armed {
            return;
        }
        let ghost old_retained = self.retained();
        let ghost old_records = self.retained_records();
        let ghost old_count = self.sample_count as nat;
        let slot = (self.sample_count % SAMPLE_CAPACITY as u64) as usize;
        self.sample_count = self.sample_count + 1;
        let stamped = Sample { number: self.sample_count, ..sample };
        self.samples.set(slot, Some(stamped));
        proof {
            lemma_ring_push(old_count, SAMPLE_CAPACITY as nat);
            assert forall|j: int| 0 <= j < retained_count(self.sample_count as nat, SAMPLE_CAPACITY as nat) implies
                (#[trigger] self.samples@[ring_slot(self.sample_count as nat, SAMPLE_CAPACITY as nat, j)]) is Some by {
                if ring_slot(self.sample_count as nat, SAMPLE_CAPACITY as nat, j) != slot as int {
                    let k = if old_count < SAMPLE_CAPACITY { j } else { j + 1 };
                    assert(ring_slot(old_count, SAMPLE_CAPACITY as nat, k) == ring_slot(self.sample_count as nat, SAMPLE_CAPACITY as nat, j));
                }
            }
            if old_retained.len() < SAMPLE_CAPACITY {
                assert(self.retained() =~= old_retained.push(stamped)) by {
                    assert forall|j: int| 0 <= j < old_retained.len() implies self.retained()[j] == old_retained[j] by {
                        assert(ring_slot(old_count, SAMPLE_CAPACITY as nat, j) == ring_slot(self.sample_count as nat, SAMPLE_CAPACITY as nat, j));
                    }
                }
            } else {
                assert(self.retained() =~= old_retained.drop_first().push(stamped)) by {
                    assert forall|j: int| 0 <= j < old_retained.len() - 1 implies self.retained()[j] == old_retained[j + 1] by {
                        assert(ring_slot(old_count, SAMPLE_CAPACITY as nat, j + 1) == ring_slot(self.sample_count as nat, SAMPLE_CAPACITY as nat, j));
                    }
                }
            }
        }
        if let Some(decision) = stamped.decision {
            let ghost old_dcount = self.decision_count as nat;
            let slot = (self.decision_count % DECISION_CAPACITY as u64) as usize;
            self.decision_count = self.decision_count + 1;
            let record = Record { number: self.decision_count, sample: stamped, decision };
            self.records.set(slot, Some(record));
            proof {
                lemma_ring_push(old_dcount, DECISION_CAPACITY as nat);
                assert forall|j: int| 0 <= j < retained_count(self.decision_count as nat, DECISION_CAPACITY as nat) implies
                    (#[trigger] self.records@[ring_slot(self.decision_count as nat, DECISION_CAPACITY as nat, j)]) is Some by {
                    if ring_slot(self.decision_count as nat, DECISION_CAPACITY as nat, j) != slot as int {
                        let k = if old_dcount < DECISION_CAPACITY { j } else { j + 1 };
                        assert(ring_slot(old_dcount, DECISION_CAPACITY as nat, k) == ring_slot(self.decision_count as nat, DECISION_CAPACITY as nat, j));
                    }
                }
                if old_records.len() < DECISION_CAPACITY {
                    assert(self.retained_records() =~= old_records.push(record)) by {
                        assert forall|j: int| 0 <= j < old_records.len() implies self.retained_records()[j] == old_records[j] by {
                            assert(ring_slot(old_dcount, DECISION_CAPACITY as nat, j) == ring_slot(self.decision_count as nat, DECISION_CAPACITY as nat, j));
                        }
                    }
                } else {
                    assert(self.retained_records() =~= old_records.drop_first().push(record)) by {
                        assert forall|j: int| 0 <= j < old_records.len() - 1 implies self.retained_records()[j] == old_records[j + 1] by {
                            assert(ring_slot(old_dcount, DECISION_CAPACITY as nat, j + 1) == ring_slot(self.decision_count as nat, DECISION_CAPACITY as nat, j));
                        }
                    }
                }
            }
            let freeze = match self.trigger {
                Trigger::NextConfirmation => true,
                Trigger::Ambiguous => match decision.source {
                    DecisionSource::History | DecisionSource::Unknown => true,
                    DecisionSource::Edge | DecisionSource::Interval => false,
                },
            };
            if freeze {
                self.state = CaptureState::Frozen;
            }
        } else {
            proof {
                assert(self.retained_records() =~= old_records);
            }
        }
    }
}

/// Ring arithmetic of one push onto `count` entries of a ring of `capacity`: the new entry
/// lands in slot `count % capacity`, and the older retained entries keep their slots
/// (shifted by one position when the ring was full).
proof fn lemma_ring_push(count: nat, capacity: nat)
    requires
        capacity > 0,
    ensures
        retained_count(count + 1, capacity) - 1 >= 0,
        ring_slot(count + 1, capacity, retained_count(count + 1, capacity) - 1) == count as int % capacity as int,
        forall|j: int| #![trigger ring_slot(count, capacity, j)]
            0 <= j < retained_count(count, capacity) && count < capacity ==> ring_slot(count, capacity, j)
                == ring_slot(count + 1, capacity, j),
        forall|j: int| #![trigger ring_slot(count + 1, capacity, j)]
            0 <= j < retained_count(count, capacity) - 1 && count >= capacity ==> ring_slot(count, capacity, j + 1)
                == ring_slot(count + 1, capacity, j),
        forall|j: int| #![trigger ring_slot(count + 1, capacity, j)]
            0 <= j < retained_count(count + 1, capacity) - 1 ==> ring_slot(count + 1, capacity, j) != count as int
                % capacity as int,
{
    assert forall|j: int| 0 <= j < retained_count(count + 1, capacity) - 1 implies #[trigger] ring_slot(
        count + 1,
        capacity,
        j,
    ) != count as int % capacity as int by {
        let base = count + 1 - retained_count(count + 1, capacity);
        let x = base + j;
        assert(0 <= x < count);
        assert(count - x < capacity);
        if x % (capacity as int) == count as int % (capacity as int) {
            vstd::arithmetic::div_mod::lemma_fundamental_div_mod(x, capacity as int);
            vstd::arithmetic::div_mod::lemma_fundamental_div_mod(count as int, capacity as int);
            vstd::arithmetic::div_mod::lemma_mod_bound(x, capacity as int);
            vstd::arithmetic::div_mod::lemma_mod_bound(count as int, capacity as int);
            assert(count - x == capacity as int * (count as int / capacity as int - x / capacity as int)) by (nonlinear_arith)
                requires
                    x == capacity * (x / capacity as int) + x % capacity as int,
                    count == capacity * (count as int / capacity as int) + count as int % capacity as int,
                    x % capacity as int == count as int % capacity as int;
            let d = count as int / capacity as int - x / capacity as int;
            assert(false) by (nonlinear_arith)
                requires count - x == capacity as int * d, 0 < count - x < capacity, capacity > 0;
        }
    }
}

/// A capture armed for ambiguous clicks freezes exactly on a decision the decoder made without
/// movement evidence (neither edge nor interval movement), and a capture armed for the next
/// confirmation freezes on any decision.
pub proof fn law_ambiguous_capture_freezes_without_movement(s: DecoderState, a: bool, b: bool)
    requires
        update_in_range(s, a, b),
    ensures
        sample_step(s, a, b).2 matches Some(d) ==> {
            &&& freezes(Trigger::Ambiguous, d) <==> d.edge_movement == 0 && d.interval_movement == 0
            &&& freezes(Trigger::NextConfirmation, d)
        },
{
    law_decision_source_matches_evidence(s, a, b);
}

} // verus!
