//! Where the pointing calibration lives and how a change reaches every store.
//!
//! - The web configurator writes the record into the keyboard's macro buffer; the firmware
//!   polls it, applies a changed record and persists it.
//! - Persistent records form a journal in the calibration flash region: one record per slot,
//!   written in slot order; the last valid record before the first erased slot wins, and a
//!   full region is erased before the next record.
//! - A record left in the old storage region by earlier firmware is recovered once by
//!   scanning that region for the last valid record.
use vstd::prelude::*;
use crate::calibration_data::{
    calibration_is_valid, decode_blob, decoded, default_calibration, encoded, law_record_round_trip, Calibration,
    CalibrationView, MatrixCoefficients, BLOB_SIZE,
};

verus! {

pub const CALIBRATION_BLOB_SIZE: usize = BLOB_SIZE;
pub const RMK_STORAGE_FLASH_START: u32 = 0xA0000;
pub const RMK_STORAGE_FLASH_SIZE: u32 = 0x6000;
pub const CALIBRATION_FLASH_START: u32 = 0xA6000;
pub const CALIBRATION_FLASH_SIZE: u32 = 0x1000;
/// Records that fit in the calibration flash region.
pub const CALIBRATION_SLOT_COUNT: usize = 0x1000 / BLOB_SIZE;
/// Bytes read from the old storage region at a time.
pub const LEGACY_READ_SIZE: usize = 256;
/// How often the macro buffer is checked for a new calibration record, in milliseconds, so
/// that a record written by the configuration page is applied within 25 ms.
pub const CONFIG_REFRESH_INTERVAL_MS: u64 = 20;
/// Bytes kept between reads, so that a record across two reads is still seen.
pub const LEGACY_OVERLAP: usize = 27;

/// The matrix of the last record of `content` that starts before `upto` and decodes.
pub open spec fn last_record_before(content: Seq<u8>, upto: int) -> Option<MatrixCoefficients>
    decreases upto,
{
    if upto <= 0 {
        None
    } else {
        let p = upto - 1;
        if p + 28 <= content.len() && decoded(content.subrange(p, p + 28)) is Some {
            Some(decoded(content.subrange(p, p + 28))->0.matrix)
        } else {
            last_record_before(content, p)
        }
    }
}

/// The matrix of the last record of `content`, at any byte offset, that decodes.
pub open spec fn last_legacy_matrix(content: Seq<u8>) -> Option<MatrixCoefficients> {
    last_record_before(content, content.len() - 27)
}

/// Appending bytes does not change which records start early enough to lie in `content`.
proof fn lemma_last_record_extends(content: Seq<u8>, more: Seq<u8>, upto: int)
    requires
        upto <= content.len() - 27,
    ensures
        last_record_before(content + more, upto) == last_record_before(content, upto),
    decreases upto,
{
    if upto > 0 {
        let p = upto - 1;
        assert((content + more).subrange(p, p + 28) =~= content.subrange(p, p + 28));
        lemma_last_record_extends(content, more, p);
    }
}

/// No record starts in the last 27 bytes.
proof fn lemma_last_record_tail(content: Seq<u8>, upto: int)
    requires
        upto >= content.len() - 27,
    ensures
        last_record_before(content, upto) == last_legacy_matrix(content),
    decreases upto,
{
    if upto > content.len() - 27 && upto > 0 {
        lemma_last_record_tail(content, upto - 1);
    }
}

/// Scan of the old storage region, fed in the order it is read.
pub struct LegacyScan {
    carry: Vec<u8>,
    latest: Option<MatrixCoefficients>,
    scanned: Ghost<Seq<u8>>,
}

impl LegacyScan {
    /// The bytes fed so far.
    pub closed spec fn scanned(&self) -> Seq<u8> {
        self.scanned@
    }

    /// The matrix found so far.
    pub closed spec fn latest_spec(&self) -> Option<MatrixCoefficients> {
        self.latest
    }

    pub closed spec fn wf(&self) -> bool {
        let total = self.scanned@.len();
        &&& self.carry@.len() == if total < 27 { total } else { 27 }
        &&& self.carry@ == self.scanned@.subrange(total - self.carry@.len(), total as int)
        &&& self.latest == last_legacy_matrix(self.scanned@)
    }

    pub fn new() -> (r: Self)
        ensures
            r.wf(),
            r.scanned() == Seq::<u8>::empty(),
            r.latest_spec() is None,
    {
        let r = LegacyScan { carry: Vec::new(), latest: None, scanned: Ghost(Seq::empty()) };
        proof {
            assert(r.carry@ =~= r.scanned@.subrange(0, 0));
        }
        r
    }

    /// The matrix of the last valid record fed so far.
    pub fn latest(&self) -> (r: Option<MatrixCoefficients>)
        requires
            self.wf(),
        ensures
            r == last_legacy_matrix(self.scanned()),
    {
        self.latest
    }

    /// Feeds the next bytes of the region.
    pub fn feed(&mut self, chunk: &[u8])
        requires
            old(self).wf(),
        ensures
            final(self).wf(),
            final(self).scanned() == old(self).scanned() + chunk@,
    {
        let ghost before = self.scanned@;
        let ghost after = before + chunk@;
        let ghost base = before.len() - self.carry@.len();
        let mut buffer = self.carry.clone();
        proof {
            assert(buffer@ == self.carry@);
        }
        let mut i: usize = 0;
        while i < chunk.len()
            invariant
                i <= chunk@.len(),
                buffer@ == after.subrange(base, before.len() + i),
                after == before + chunk@,
                0 <= base <= before.len(),
            decreases chunk@.len() - i,
        {
            buffer.push(chunk[i]);
            proof {
                assert(buffer@ =~= after.subrange(base, before.len() + i + 1));
            }
            i = i + 1;
        }
        let available = buffer.len();
        proof {
            lemma_last_record_extends(before, chunk@, before.len() - 27);
            if before.len() < 27 {
                assert(last_record_before(after, base) == None::<MatrixCoefficients>);
            }
        }
        let mut latest = self.latest;
        if available >= 28 {
            let mut start: usize = 0;
            while start <= available - 28
                invariant
                    available == buffer@.len() >= 28,
                    buffer@ == after.subrange(base, after.len() as int),
                    0 <= base,
                    base + available == after.len(),
                    start <= available - 27,
                    latest == last_record_before(after, base + start),
                decreases available - 27 - start,
            {
                let blob = window(&buffer, start);
                proof {
                    assert(blob@ =~= after.subrange(base + start, base + start + 28));
                }
                match decode_blob(&blob) {
                    Some(c) => {
                        latest = Some(c.matrix);
                    },
                    None => {},
                }
                start = start + 1;
            }
        }
        proof {
            if available < 28 {
                lemma_last_record_tail(after, base);
            }
        }
        let keep = if available < LEGACY_OVERLAP { available } else { LEGACY_OVERLAP };
        let mut carry: Vec<u8> = Vec::new();
        let mut k: usize = available - keep;
        while k < available
            invariant
                available == buffer@.len(),
                keep <= available,
                available - keep <= k <= available,
                carry@ == buffer@.subrange(available - keep, k as int),
            decreases available - k,
        {
            carry.push(buffer[k]);
            proof {
                assert(carry@ =~= buffer@.subrange(available - keep, k + 1));
            }
            k = k + 1;
        }
        proof {
            assert(carry@ =~= after.subrange(after.len() - keep, after.len() as int));
        }
        self.carry = carry;
        self.latest = latest;
        self.scanned = Ghost(after);
    }
}

/// The 28 bytes of `bytes` from `start`.
fn window(bytes: &Vec<u8>, start: usize) -> (r: [u8; 28])
    requires
        start + 28 <= bytes@.len(),
    ensures
        r@ == bytes@.subrange(start as int, start + 28),
{
    let mut r = [0u8; 28];
    let mut i: usize = 0;
    let n = bytes.len();
    while i < 28
        invariant
            n == bytes@.len(),
            start + 28 <= bytes@.len(),
            i <= 28,
            forall|j: int| 0 <= j < i ==> r@[j] == bytes@[start + j],
        decreases 28 - i,
    {
        r[i] = bytes[start + i];
        i = i + 1;
    }
    proof {
        assert(r@ =~= bytes@.subrange(start as int, start + 28));
    }
    r
}

/// A slot that holds no record: every byte erased.
pub open spec fn is_erased(b: Seq<u8>) -> bool {
    forall|i: int| 0 <= i < b.len() ==> #[trigger] b[i] == 0xff
}

pub open spec fn view_of(c: Option<Calibration>) -> Option<CalibrationView> {
    match c {
        Some(v) => Some(v@),
        None => None,
    }
}

/// Whether two calibrations are the same setting.
pub fn same_calibration(a: &Calibration, b: &Calibration) -> (r: bool)
    ensures
        r == (a@ == b@),
{
    let r = a.matrix == b.matrix && a.gains[0] == b.gains[0] && a.gains[1] == b.gains[1] && a.gains[2] == b.gains[2]
        && a.gains[3] == b.gains[3] && a.sensitivity == b.sensitivity;
    proof {
        if r {
            assert(a.gains@ =~= b.gains@);
        }
        if a@ == b@ {
            assert(a.gains@[0] == b.gains@[0]);
            assert(a.gains@[1] == b.gains@[1]);
            assert(a.gains@[2] == b.gains@[2]);
            assert(a.gains@[3] == b.gains@[3]);
        }
    }
    r
}

/// Whether two optional calibrations are the same.
pub fn same_optional(a: &Option<Calibration>, b: &Option<Calibration>) -> (r: bool)
    ensures
        r == (view_of(*a) == view_of(*b)),
{
    match (a, b) {
        (Some(x), Some(y)) => same_calibration(x, y),
        (None, None) => true,
        _ => false,
    }
}

fn is_erased_blob(blob: &[u8; 28]) -> (r: bool)
    ensures
        r == is_erased(blob@),
{
    let mut i: usize = 0;
    while i < 28
        invariant
            i <= 28,
            forall|j: int| 0 <= j < i ==> blob@[j] == 0xff,
        decreases 28 - i,
    {
        if blob[i] != 0xff {
            return false;
        }
        i = i + 1;
    }
    true
}

/// What a new macro-buffer record does: the calibration to use, whether the macro buffer
/// must be rewritten (a legacy record, completed with the current gains and sensitivity),
/// whether it must be applied and whether it must be persisted.
pub struct RefreshPlan {
    pub calibration: Calibration,
    pub rewrite_macro: bool,
    pub apply: bool,
    pub persist: bool,
}

/// The calibration chosen at start-up and what must follow.
pub struct InitializePlan {
    pub calibration: Calibration,
    pub rewrite_macro: bool,
    pub persist: bool,
}

/// The calibration watcher's state: the matrix to migrate from the old storage region, the
/// calibration last applied and last persisted, and the next journal slot.
pub struct CalibrationConfigWatcher {
    pub migration_matrix: Option<MatrixCoefficients>,
    pub last_applied: Calibration,
    pub last_persisted: Option<Calibration>,
    pub next_slot: usize,
}

impl CalibrationConfigWatcher {
    pub open spec fn wf(&self) -> bool {
        self.next_slot <= CALIBRATION_SLOT_COUNT
    }

    pub fn with_migration(migration_matrix: Option<MatrixCoefficients>) -> (r: Self)
        ensures
            r.wf(),
            r.migration_matrix == migration_matrix,
            r.last_applied@ == default_calibration(),
            r.last_persisted is None,
            r.next_slot == 0,
    {
        CalibrationConfigWatcher {
            migration_matrix,
            last_applied: Calibration::default(),
            last_persisted: None,
            next_slot: 0,
        }
    }

    /// Takes the read of journal slot `slot` (`None` when the read failed) during loading;
    /// returns whether to read the next slot. Loading stops at a failed read or an erased
    /// slot, where the journal continues; a valid record becomes `latest`.
    pub fn load_slot(&mut self, slot: usize, read: Option<&[u8; 28]>, latest: &mut Option<Calibration>) -> (r: bool)
        requires
            slot < CALIBRATION_SLOT_COUNT,
        ensures
            final(self).migration_matrix == old(self).migration_matrix,
            final(self).last_applied == old(self).last_applied,
            final(self).last_persisted == old(self).last_persisted,
            final(self).wf(),
            match read {
                None => !r && final(self).next_slot == slot && *final(latest) == *old(latest),
                Some(b) => if is_erased(b@) {
                    !r && final(self).next_slot == slot && *final(latest) == *old(latest)
                } else {
                    &&& r
                    &&& final(self).next_slot == slot + 1
                    &&& view_of(*final(latest)) == match decoded(b@) {
                        Some(c) => Some(c),
                        None => view_of(*old(latest)),
                    }
                },
            },
    {
        match read {
            None => {
                self.next_slot = slot;
                false
            },
            Some(blob) => {
                if is_erased_blob(blob) {
                    self.next_slot = slot;
                    return false;
                }
                match decode_blob(blob) {
                    Some(c) => {
                        *latest = Some(c);
                    },
                    None => {},
                }
                self.next_slot = slot + 1;
                true
            },
        }
    }

    /// Whether the next persisted record needs the region erased first (the journal is full).
    pub fn needs_erase(&self) -> (r: bool)
        ensures
            r == (self.next_slot >= CALIBRATION_SLOT_COUNT),
    {
        self.next_slot >= CALIBRATION_SLOT_COUNT
    }

    /// The region was erased: the journal starts again at the first slot.
    pub fn region_erased(&mut self)
        ensures
            final(self).next_slot == 0,
            final(self).wf(),
            final(self).migration_matrix == old(self).migration_matrix,
            final(self).last_applied == old(self).last_applied,
            final(self).last_persisted == old(self).last_persisted,
    {
        self.next_slot = 0;
    }

    /// Flash offset of the next record.
    pub fn write_offset(&self) -> (r: u32)
        requires
            self.next_slot < CALIBRATION_SLOT_COUNT,
        ensures
            r == self.next_slot * CALIBRATION_BLOB_SIZE,
    {
        (self.next_slot * CALIBRATION_BLOB_SIZE) as u32
    }

    /// The next record was written.
    pub fn record_written(&mut self)
        requires
            old(self).next_slot < CALIBRATION_SLOT_COUNT,
        ensures
            final(self).next_slot == old(self).next_slot + 1,
            final(self).wf(),
            final(self).migration_matrix == old(self).migration_matrix,
            final(self).last_applied == old(self).last_applied,
            final(self).last_persisted == old(self).last_persisted,
    {
        self.next_slot = self.next_slot + 1;
    }

    /// The start-up calibration: the persisted one, else the migrated matrix, else the macro
    /// buffer's record, else the default; the macro buffer is rewritten unless it already holds
    /// that calibration as a current record (`current_version` 2), and the calibration is
    /// persisted when the journal held none.
    pub fn plan_initialize(
        &self,
        persistent: Option<Calibration>,
        macro_matrix: Option<Calibration>,
        current_version: u8,
    ) -> (r: InitializePlan)
        ensures
            r.calibration@ == match persistent {
                Some(p) => p@,
                None => match self.migration_matrix {
                    Some(m) => CalibrationView { matrix: m, ..default_calibration() },
                    None => match macro_matrix {
                        Some(c) => c@,
                        None => default_calibration(),
                    },
                },
            },
            r.rewrite_macro == (view_of(macro_matrix) != Some(r.calibration@) || current_version != 2),
            r.persist == persistent is None,
    {
        let calibration = match persistent {
            Some(p) => p,
            None => match self.migration_matrix {
                Some(m) => Calibration::from_matrix(m),
                None => match macro_matrix {
                    Some(c) => c,
                    None => Calibration::default(),
                },
            },
        };
        let rewrite_macro = !same_optional(&macro_matrix, &Some(calibration)) || current_version != 2;
        InitializePlan { calibration, rewrite_macro, persist: persistent.is_none() }
    }

    /// Start-up is done: `chosen` is applied; it is the persisted calibration when it was
    /// persisted now, else the journal's.
    pub fn finish_initialize(&mut self, chosen: Calibration, persistent: Option<Calibration>, persisted: bool)
        ensures
            final(self).last_applied == chosen,
            final(self).last_persisted == if persisted { Some(chosen) } else { persistent },
            final(self).next_slot == old(self).next_slot,
            final(self).migration_matrix == old(self).migration_matrix,
    {
        self.last_persisted = if persisted { Some(chosen) } else { persistent };
        self.last_applied = chosen;
    }

    /// What the macro-buffer record `blob` requires: `None` for a record that does not decode;
    /// a legacy (version 1) record keeps the current gains and sensitivity and is rewritten; the
    /// result is applied when it differs from the applied calibration and persisted when it
    /// differs from the persisted one.
    pub fn plan_refresh(&self, blob: &[u8; 28]) -> (r: Option<RefreshPlan>)
        ensures
            match decoded(blob@) {
                None => r is None,
                Some(d) => r matches Some(plan) && {
                    let c = if blob@[4] == 1 {
                        CalibrationView { gains: self.last_applied@.gains, sensitivity: self.last_applied.sensitivity, ..d }
                    } else {
                        d
                    };
                    &&& plan.calibration@ == c
                    &&& plan.rewrite_macro == (blob@[4] == 1)
                    &&& plan.apply == (c != self.last_applied@)
                    &&& plan.persist == (Some(c) != view_of(self.last_persisted))
                },
            },
    {
        match decode_blob(blob) {
            None => None,
            Some(mut calibration) => {
                let legacy = blob[4] == 1;
                if legacy {
                    calibration.gains = self.last_applied.gains;
                    calibration.sensitivity = self.last_applied.sensitivity;
                }
                let apply = !same_calibration(&calibration, &self.last_applied);
                let persist = !same_optional(&Some(calibration), &self.last_persisted);
                Some(RefreshPlan { calibration, rewrite_macro: legacy, apply, persist })
            },
        }
    }

    /// `c` was applied.
    pub fn record_applied(&mut self, c: Calibration)
        ensures
            final(self).last_applied == c,
            final(self).last_persisted == old(self).last_persisted,
            final(self).next_slot == old(self).next_slot,
            final(self).migration_matrix == old(self).migration_matrix,
    {
        self.last_applied = c;
    }

    /// `c` was persisted.
    pub fn record_persisted(&mut self, c: Calibration)
        ensures
            final(self).last_persisted == Some(c),
            final(self).last_applied == old(self).last_applied,
            final(self).next_slot == old(self).next_slot,
            final(self).migration_matrix == old(self).migration_matrix,
    {
        self.last_persisted = Some(c);
    }
}

/// The latest record after loading the slots `slots` in order, starting from `latest`:
/// loading stops at the first erased slot and every valid record replaces the latest
/// (see [`CalibrationConfigWatcher::load_slot`]).
pub open spec fn journal_latest(slots: Seq<Seq<u8>>, latest: Option<CalibrationView>) -> Option<CalibrationView>
    decreases slots.len(),
{
    if slots.len() == 0 || is_erased(slots[0]) {
        latest
    } else {
        journal_latest(
            slots.drop_first(),
            match decoded(slots[0]) {
                Some(c) => Some(c),
                None => latest,
            },
        )
    }
}

/// The record persisted last is what loading the journal finds: after any run of written
/// slots, the record of a valid calibration followed by an erased slot (or the end of the
/// region) loads as that calibration.
pub proof fn law_journal_loads_last_record(written: Seq<Seq<u8>>, c: CalibrationView, rest: Seq<Seq<u8>>)
    requires
        forall|i: int| 0 <= i < written.len() ==> !is_erased(#[trigger] written[i]),
        calibration_is_valid(c),
        rest.len() == 0 || is_erased(rest[0]),
    ensures
        journal_latest(written + seq![encoded(c)] + rest, None) == Some(c),
{
    lemma_journal_loads_last_record(written, c, rest, None);
}

proof fn lemma_journal_loads_last_record(
    written: Seq<Seq<u8>>,
    c: CalibrationView,
    rest: Seq<Seq<u8>>,
    latest: Option<CalibrationView>,
)
    requires
        forall|i: int| 0 <= i < written.len() ==> !is_erased(#[trigger] written[i]),
        calibration_is_valid(c),
        rest.len() == 0 || is_erased(rest[0]),
    ensures
        journal_latest(written + seq![encoded(c)] + rest, latest) == Some(c),
    decreases written.len(),
{
    let all = written + seq![encoded(c)] + rest;
    if written.len() == 0 {
        law_record_round_trip(c);
        assert(all =~= seq![encoded(c)] + rest);
        assert(encoded(c)[0] == 0x52u8);
        assert(!is_erased(encoded(c)));
        assert(all.drop_first() =~= rest);
        assert(journal_latest(rest, Some(c)) == Some(c));
        assert(journal_latest(all, latest) == journal_latest(all.drop_first(), Some(c)));
    } else {
        assert(all[0] == written[0]);
        assert(!is_erased(written[0]));
        assert(all.drop_first() =~= written.drop_first() + seq![encoded(c)] + rest);
        let next = match decoded(written[0]) {
            Some(d) => Some(d),
            None => latest,
        };
        assert forall|i: int| 0 <= i < written.drop_first().len() implies !is_erased(
            #[trigger] written.drop_first()[i],
        ) by {
            assert(written.drop_first()[i] == written[i + 1]);
        }
        lemma_journal_loads_last_record(written.drop_first(), c, rest, next);
    }
}

/// The calibration as the words shared with the pointing task: the four coefficients, the
/// four gains and the sensitivity, each in its own atomic word, published under a generation
/// counter that is odd while an update is in progress.
#[derive(Clone, Copy, Debug)]
pub struct CalibrationWords {
    pub matrix: [i32; 4],
    pub gains: [u32; 4],
    pub sensitivity: u32,
}

/// The words that publish `config`.
pub fn calibration_words(config: Calibration) -> (r: CalibrationWords)
    ensures
        r.matrix@ == seq![config.matrix.m00, config.matrix.m01, config.matrix.m10, config.matrix.m11],
        forall|i: int| 0 <= i < 4 ==> #[trigger] r.gains@[i] == config.gains@[i] as u32,
        r.sensitivity == config.sensitivity as u32,
{
    let r = CalibrationWords {
        matrix: [config.matrix.m00, config.matrix.m01, config.matrix.m10, config.matrix.m11],
        gains: [config.gains[0] as u32, config.gains[1] as u32, config.gains[2] as u32, config.gains[3] as u32],
        sensitivity: config.sensitivity as u32,
    };
    proof {
        assert(r.matrix@ =~= seq![config.matrix.m00, config.matrix.m01, config.matrix.m10, config.matrix.m11]);
    }
    r
}

/// The calibration that a consistent read of the shared words holds (gains and sensitivity
/// are taken from the low bits of their words).
pub fn current_calibration(words: CalibrationWords) -> (r: Calibration)
    ensures
        r.matrix == (MatrixCoefficients {
            m00: words.matrix@[0],
            m01: words.matrix@[1],
            m10: words.matrix@[2],
            m11: words.matrix@[3],
        }),
        forall|i: int| 0 <= i < 4 ==> #[trigger] r.gains@[i] == words.gains@[i] as u16,
        r.sensitivity == words.sensitivity as u8,
{
    Calibration {
        matrix: MatrixCoefficients {
            m00: words.matrix[0],
            m01: words.matrix[1],
            m10: words.matrix[2],
            m11: words.matrix[3],
        },
        gains: [words.gains[0] as u16, words.gains[1] as u16, words.gains[2] as u16, words.gains[3] as u16],
        sensitivity: words.sensitivity as u8,
    }
}

/// Whether a read of the shared words between the generations `before` and `after` is
/// consistent: no update was in progress at the start (`before` even) and none started since.
pub fn generation_is_stable(before: u32, after: u32) -> (r: bool)
    ensures
        r == (before % 2 == 0 && after == before),
{
    proof {
        assert(before & 1 == 0 <==> before % 2 == 0) by (bit_vector);
    }
    before & 1 == 0 && after == before
}

/// A consistent read gives back exactly the calibration last published.
pub proof fn law_shared_calibration_round_trip(config: Calibration, words: CalibrationWords, read: Calibration)
    requires
        words.matrix@ == seq![config.matrix.m00, config.matrix.m01, config.matrix.m10, config.matrix.m11],
        forall|i: int| 0 <= i < 4 ==> #[trigger] words.gains@[i] == config.gains@[i] as u32,
        words.sensitivity == config.sensitivity as u32,
        read.matrix == (MatrixCoefficients {
            m00: words.matrix@[0],
            m01: words.matrix@[1],
            m10: words.matrix@[2],
            m11: words.matrix@[3],
        }),
        forall|i: int| 0 <= i < 4 ==> #[trigger] read.gains@[i] == words.gains@[i] as u16,
        read.sensitivity == words.sensitivity as u8,
    ensures
        read@ == config@,
{
    assert forall|i: int| 0 <= i < 4 implies read.gains@[i] == config.gains@[i] by {
        assert(words.gains@[i] == config.gains@[i] as u32);
    }
    assert(read.gains@ =~= config.gains@);
}

} // verus!
