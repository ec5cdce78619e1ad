//! The trackball pipeline's state and decisions: sensor start-up with bounded retries, raw
//! motion accumulation, and reports through the calibrated transform, the adaptive heading
//! filter, the gain and direction-preserving `i8` chunks.
//!
//! Raw motion accumulates between reports. At a report, at most one `i16` vector is taken from
//! it (the excess waits for a later report), transformed with the current calibration matrix,
//! smoothed by the heading filter (small changes of direction are low-pass filtered, turns of
//! 30 degrees or more pass unchanged), scaled by the gain and added to the pending output, of
//! which one `i8` chunk is reported.
use vstd::prelude::*;
use crate::adaptive_heading_filter::{fresh_heading_state, heading_state_wf, heading_step, AdaptiveHeadingFilter, HeadingState};
use crate::calibration_data::{matrix_is_safe, MatrixCoefficients};
use crate::clock::{micros_ticks, period_ticks, ticks_from_hz, ticks_from_micros};
use crate::fixed_math::clamp_i16_spec;
use crate::motion_chunk::{chunk_spec, take_i16_chunk, take_proportional_i8_chunk};
use crate::motion_gain::{gain_state_wf, gain_step, lemma_unity_gain_fits, GainState, MotionGain, GAIN_SCALE, TRACKBALL_GAIN_NUMERATOR};
use crate::trackball_transform::{
    lemma_safe_matrix_is_supported, transform_next, transform_output, TrackballTransform, TransformMode,
};

verus! {

/// Sensor start-up attempts before the sensor is given up.
pub const MAX_INIT_RETRIES: u8 = 3;
/// Sensor poll interval without a motion line, at most the report interval.
pub const DEFAULT_POLL_INTERVAL_US: u64 = 500;
/// Pause between two start-up attempts.
pub const INIT_RETRY_DELAY_MS: u64 = 100;

/// Sensor start-up state; `Initializing` counts the failed attempts.
#[derive(Clone, Copy, Debug, PartialEq, Eq, Structural)]
pub enum InitState {
    Pending,
    Initializing(u8),
    Ready,
    Failed,
}

/// What a start-up check asks for.
#[derive(Clone, Copy, Debug, PartialEq, Eq, Structural)]
pub enum InitStep {
    /// The sensor is running.
    Ready,
    /// The sensor was given up.
    Failed,
    /// Start the sensor now and report the result.
    Attempt,
}

/// What a start-up attempt leads to.
#[derive(Clone, Copy, Debug, PartialEq, Eq, Structural)]
pub enum InitOutcome {
    /// Running; set this resolution if one was requested before.
    Ready(Option<u16>),
    /// Failed; wait and try again at the next poll.
    Retry,
    /// Failed for the last time.
    Failed,
}

/// One relative pointing report.
#[derive(Clone, Copy, Debug, PartialEq, Eq, Structural)]
pub struct PointingReport {
    pub device_id: u8,
    pub x: i8,
    pub y: i8,
}

pub open spec fn saturate_i32(v: int) -> int {
    if v < i32::MIN {
        i32::MIN as int
    } else if v > i32::MAX {
        i32::MAX as int
    } else {
        v
    }
}

pub open spec fn unity_gains() -> Seq<u16> {
    seq![1000u16, 1000u16, 1000u16, 1000u16]
}

/// The pending output after one merge of the accumulated motion `acc` (at most one `i16`
/// vector of it) through `transform` with `matrix`, the heading `filter` and `gain`.
pub open spec fn merged_pending(
    acc: (int, int),
    pending: (int, int),
    transform: TrackballTransform,
    filter: HeadingState,
    gain: GainState,
    matrix: MatrixCoefficients,
) -> (int, int) {
    if acc == (0int, 0int) {
        pending
    } else {
        let (tx, ty) = transform_output(transform, clamp_i16_spec(acc.0), clamp_i16_spec(acc.1), matrix);
        let (fx, fy) = heading_step(filter, tx, ty).1;
        let (gx, gy) = gain_step(gain, fx, fy, unity_gains(), 100).1;
        (saturate_i32(pending.0 + gx), saturate_i32(pending.1 + gy))
    }
}

fn saturating_add_i32(a: i32, b: i32) -> (r: i32)
    ensures
        r == saturate_i32(a + b),
{
    let sum = a as i64 + b as i64;
    if sum < i32::MIN as i64 {
        i32::MIN
    } else if sum > i32::MAX as i64 {
        i32::MAX
    } else {
        sum as i32
    }
}

pub struct TransformingPointingDevice {
    id: u8,
    init_state: InitState,
    accumulated_x: i32,
    accumulated_y: i32,
    pending_report_x: i32,
    pending_report_y: i32,
    requested_cpi: Option<u16>,
    transform: TrackballTransform,
    filter: AdaptiveHeadingFilter,
    gain: MotionGain,
    report_interval: u64,
    poll_interval: u64,
}

impl TransformingPointingDevice {
    pub closed spec fn id_spec(&self) -> u8 {
        self.id
    }

    pub closed spec fn init_spec(&self) -> InitState {
        self.init_state
    }

    /// Raw motion not yet transformed.
    pub closed spec fn accumulated(&self) -> (int, int) {
        (self.accumulated_x as int, self.accumulated_y as int)
    }

    /// Transformed motion not yet reported.
    pub closed spec fn pending(&self) -> (int, int) {
        (self.pending_report_x as int, self.pending_report_y as int)
    }

    pub closed spec fn requested_cpi_spec(&self) -> Option<u16> {
        self.requested_cpi
    }

    pub closed spec fn transform_spec(&self) -> TrackballTransform {
        self.transform
    }

    /// The heading filter's state.
    pub closed spec fn filter_spec(&self) -> HeadingState {
        self.filter@
    }

    pub closed spec fn gain_spec(&self) -> GainState {
        self.gain@
    }

    /// The report interval and the poll interval, in clock ticks.
    pub closed spec fn intervals(&self) -> (u64, u64) {
        (self.report_interval, self.poll_interval)
    }

    pub closed spec fn wf(&self) -> bool {
        &&& self.transform.wf()
        &&& heading_state_wf(self.filter@)
        &&& gain_state_wf(self.gain@)
        &&& 0 <= self.gain@.numerator <= GAIN_SCALE
        &&& self.init_state matches InitState::Initializing(n) ==> n < MAX_INIT_RETRIES
    }

    /// A pipeline for device `id` with a sensor not yet started, the automatic transform, the
    /// default gain, and the given report interval; the sensor is polled at
    /// `default_poll_interval`, or at the report interval where that is shorter.
    pub fn with_intervals(id: u8, report_interval: u64, default_poll_interval: u64) -> (r: Self)
        ensures
            r.wf(),
            r.id_spec() == id,
            r.intervals() == (report_interval, if default_poll_interval < report_interval {
                default_poll_interval
            } else {
                report_interval
            }),
            r.init_spec() == InitState::Pending,
            r.accumulated() == (0int, 0int),
            r.pending() == (0int, 0int),
            r.requested_cpi_spec() is None,
            r.transform_spec().mode_spec() == TransformMode::Automatic,
            r.transform_spec().cached() is None,
            r.filter_spec() == fresh_heading_state(),
            r.gain_spec() == (GainState {
                numerator: TRACKBALL_GAIN_NUMERATOR as int,
                remainder_x: 0,
                remainder_y: 0,
                calibration: None,
            }),
    {
        let gain = MotionGain::new();
        let filter = AdaptiveHeadingFilter::new();
        TransformingPointingDevice {
            id,
            init_state: InitState::Pending,
            accumulated_x: 0,
            accumulated_y: 0,
            pending_report_x: 0,
            pending_report_y: 0,
            requested_cpi: None,
            transform: TrackballTransform::new(),
            filter,
            gain,
            report_interval,
            poll_interval: if default_poll_interval < report_interval {
                default_poll_interval
            } else {
                report_interval
            },
        }
    }

    /// A pipeline for device `id` that reports at `report_hz` (see [`Self::with_intervals`]);
    /// the default poll interval is [`DEFAULT_POLL_INTERVAL_US`].
    pub fn with_report_hz(id: u8, report_hz: u16) -> (r: Self)
        requires
            report_hz > 0,
        ensures
            r.wf(),
            r.id_spec() == id,
            r.intervals() == (ticks_from_hz(report_hz as u64), if ticks_from_micros(
                DEFAULT_POLL_INTERVAL_US,
            ) < ticks_from_hz(report_hz as u64) {
                ticks_from_micros(DEFAULT_POLL_INTERVAL_US)
            } else {
                ticks_from_hz(report_hz as u64)
            }),
            r.init_spec() == InitState::Pending,
            r.accumulated() == (0int, 0int),
            r.pending() == (0int, 0int),
            r.requested_cpi_spec() is None,
            r.transform_spec().mode_spec() == TransformMode::Automatic,
            r.transform_spec().cached() is None,
            r.filter_spec() == fresh_heading_state(),
            r.gain_spec() == (GainState {
                numerator: TRACKBALL_GAIN_NUMERATOR as int,
                remainder_x: 0,
                remainder_y: 0,
                calibration: None,
            }),
    {
        let report_interval = period_ticks(report_hz as u64);
        let default_poll_interval = micros_ticks(DEFAULT_POLL_INTERVAL_US);
        Self::with_intervals(id, report_interval, default_poll_interval)
    }

    /// The report interval, in clock ticks.
    pub fn report_interval(&self) -> (r: u64)
        ensures
            r == self.intervals().0,
    {
        self.report_interval
    }

    /// The poll interval without a motion line, in clock ticks.
    pub fn poll_interval(&self) -> (r: u64)
        ensures
            r == self.intervals().1,
    {
        self.poll_interval
    }

    /// The start-up check before a poll: a pending sensor starts its first attempt.
    pub fn begin_init(&mut self) -> (r: InitStep)
        requires
            old(self).wf(),
        ensures
            final(self).wf(),
            r == match old(self).init_spec() {
                InitState::Ready => InitStep::Ready,
                InitState::Failed => InitStep::Failed,
                _ => InitStep::Attempt,
            },
            final(self).init_spec() == match old(self).init_spec() {
                InitState::Pending => InitState::Initializing(0),
                s => s,
            },
            final(self).accumulated() == old(self).accumulated(),
            final(self).pending() == old(self).pending(),
            final(self).requested_cpi_spec() == old(self).requested_cpi_spec(),
            final(self).id_spec() == old(self).id_spec(),
            final(self).intervals() == old(self).intervals(),
            final(self).transform_spec() == old(self).transform_spec(),
            final(self).gain_spec() == old(self).gain_spec(),
            final(self).filter_spec() == old(self).filter_spec(),
    {
        match self.init_state {
            InitState::Ready => InitStep::Ready,
            InitState::Failed => InitStep::Failed,
            InitState::Pending => {
                self.init_state = InitState::Initializing(0);
                InitStep::Attempt
            },
            InitState::Initializing(_) => InitStep::Attempt,
        }
    }

    /// The result of a start-up attempt: success makes the sensor ready (with the requested
    /// resolution to set); the third failure gives the sensor up.
    pub fn init_result(&mut self, ok: bool) -> (r: InitOutcome)
        requires
            old(self).wf(),
            old(self).init_spec() is Initializing,
        ensures
            final(self).wf(),
            ok ==> r == InitOutcome::Ready(old(self).requested_cpi_spec()) && final(self).init_spec()
                == InitState::Ready,
            !ok ==> match old(self).init_spec() {
                InitState::Initializing(n) => if n + 1 >= MAX_INIT_RETRIES {
                    r == InitOutcome::Failed && final(self).init_spec() == InitState::Failed
                } else {
                    r == InitOutcome::Retry && final(self).init_spec() == InitState::Initializing((n + 1) as u8)
                },
                _ => false,
            },
            final(self).accumulated() == old(self).accumulated(),
            final(self).pending() == old(self).pending(),
            final(self).requested_cpi_spec() == old(self).requested_cpi_spec(),
            final(self).id_spec() == old(self).id_spec(),
            final(self).intervals() == old(self).intervals(),
            final(self).transform_spec() == old(self).transform_spec(),
            final(self).gain_spec() == old(self).gain_spec(),
            final(self).filter_spec() == old(self).filter_spec(),
    {
        let attempts = match self.init_state {
            InitState::Initializing(n) => n,
            _ => 0,
        };
        if ok {
            self.init_state = InitState::Ready;
            return InitOutcome::Ready(self.requested_cpi);
        }
        if attempts + 1 >= MAX_INIT_RETRIES {
            self.init_state = InitState::Failed;
            InitOutcome::Failed
        } else {
            self.init_state = InitState::Initializing(attempts + 1);
            InitOutcome::Retry
        }
    }

    /// Whether the sensor must be started before it can be polled.
    pub fn needs_init(&self) -> (r: bool)
        ensures
            r == (self.init_spec() != InitState::Ready),
    {
        self.init_state != InitState::Ready
    }

    /// Adds one raw sensor reading, saturating.
    pub fn accumulate(&mut self, dx: i16, dy: i16)
        requires
            old(self).wf(),
        ensures
            final(self).wf(),
            final(self).accumulated() == (
                saturate_i32(old(self).accumulated().0 + dx),
                saturate_i32(old(self).accumulated().1 + dy),
            ),
            final(self).pending() == old(self).pending(),
            final(self).init_spec() == old(self).init_spec(),
            final(self).requested_cpi_spec() == old(self).requested_cpi_spec(),
            final(self).id_spec() == old(self).id_spec(),
            final(self).intervals() == old(self).intervals(),
            final(self).transform_spec() == old(self).transform_spec(),
            final(self).gain_spec() == old(self).gain_spec(),
            final(self).filter_spec() == old(self).filter_spec(),
    {
        self.accumulated_x = saturating_add_i32(self.accumulated_x, dx as i32);
        self.accumulated_y = saturating_add_i32(self.accumulated_y, dy as i32);
    }

    /// A resolution request: kept for this device, and returned to be set now when the
    /// sensor is running (otherwise it is set once start-up succeeds).
    pub fn on_pointing_set_cpi_event(&mut self, device_id: u8, cpi: u16) -> (r: Option<u16>)
        requires
            old(self).wf(),
        ensures
            final(self).wf(),
            device_id == old(self).id_spec() ==> final(self).requested_cpi_spec() == Some(cpi) && r == (
            if old(self).init_spec() == InitState::Ready {
                Some(cpi)
            } else {
                None
            }),
            device_id != old(self).id_spec() ==> final(self).requested_cpi_spec() == old(
                self,
            ).requested_cpi_spec() && r is None,
            final(self).accumulated() == old(self).accumulated(),
            final(self).pending() == old(self).pending(),
            final(self).init_spec() == old(self).init_spec(),
            final(self).id_spec() == old(self).id_spec(),
            final(self).intervals() == old(self).intervals(),
            final(self).transform_spec() == old(self).transform_spec(),
            final(self).gain_spec() == old(self).gain_spec(),
            final(self).filter_spec() == old(self).filter_spec(),
    {
        if device_id != self.id {
            return None;
        }
        self.requested_cpi = Some(cpi);
        if self.init_state == InitState::Ready {
            Some(cpi)
        } else {
            None
        }
    }

    /// Whether any motion waits to be reported.
    pub fn has_report_data(&self) -> (r: bool)
        ensures
            r == (self.accumulated() != (0int, 0int) || self.pending() != (0int, 0int)),
    {
        self.accumulated_x != 0 || self.accumulated_y != 0 || self.pending_report_x != 0 || self.pending_report_y != 0
    }

    /// Whether a report is due, `elapsed` ticks after the last one: motion waits and the
    /// report interval has passed.
    pub fn report_due(&self, elapsed: u64) -> (r: bool)
        ensures
            r == ((self.accumulated() != (0int, 0int) || self.pending() != (0int, 0int)) && elapsed
                >= self.intervals().0),
    {
        self.has_report_data() && elapsed >= self.report_interval
    }

    /// Moves at most one `i16` vector of raw motion through the transform (with `matrix`), the
    /// adaptive heading filter and the gain into the pending output.
    pub fn merge_accumulated_motion(&mut self, matrix: MatrixCoefficients)
        requires
            old(self).wf(),
            matrix_is_safe(matrix),
        ensures
            final(self).wf(),
            final(self).init_spec() == old(self).init_spec(),
            final(self).requested_cpi_spec() == old(self).requested_cpi_spec(),
            final(self).id_spec() == old(self).id_spec(),
            final(self).intervals() == old(self).intervals(),
            old(self).accumulated() == (0int, 0int) ==> *final(self) == *old(self),
            old(self).accumulated() != (0int, 0int) ==> {
                let (ax, ay) = old(self).accumulated();
                let rx = clamp_i16_spec(ax);
                let ry = clamp_i16_spec(ay);
                let (tx, ty) = transform_output(old(self).transform_spec(), rx, ry, matrix);
                let (h, (fx, fy)) = heading_step(old(self).filter_spec(), tx, ty);
                let (g, (gx, gy)) = gain_step(old(self).gain_spec(), fx, fy, unity_gains(), 100);
                &&& final(self).accumulated() == (ax - rx, ay - ry)
                &&& transform_next(old(self).transform_spec(), final(self).transform_spec(), rx, ry, matrix)
                &&& final(self).filter_spec() == h
                &&& final(self).gain_spec() == g
                &&& final(self).pending() == (
                    saturate_i32(old(self).pending().0 + gx),
                    saturate_i32(old(self).pending().1 + gy),
                )
            },
    {
        if self.accumulated_x == 0 && self.accumulated_y == 0 {
            return;
        }
        let raw_x = take_i16_chunk(&mut self.accumulated_x);
        let raw_y = take_i16_chunk(&mut self.accumulated_y);
        proof {
            lemma_safe_matrix_is_supported(self.transform.mode_spec(), matrix);
        }
        let (x, y) = self.transform.apply(raw_x, raw_y, matrix);
        let (x, y) = self.filter.apply(x, y);
        proof {
            lemma_unity_gain_fits(self.gain@, x as int, y as int);
        }
        let (x, y) = self.gain.apply(x, y);
        self.pending_report_x = saturating_add_i32(self.pending_report_x, x as i32);
        self.pending_report_y = saturating_add_i32(self.pending_report_y, y as i32);
    }

    /// Takes the next report from the pending output: both axes are split into the same
    /// number of `i8` reports, so every report keeps the direction of the whole output.
    pub fn take_pending_report(&mut self) -> (r: Option<PointingReport>)
        requires
            old(self).wf(),
        ensures
            final(self).wf(),
            final(self).accumulated() == old(self).accumulated(),
            final(self).init_spec() == old(self).init_spec(),
            final(self).requested_cpi_spec() == old(self).requested_cpi_spec(),
            final(self).id_spec() == old(self).id_spec(),
            final(self).intervals() == old(self).intervals(),
            final(self).transform_spec() == old(self).transform_spec(),
            final(self).gain_spec() == old(self).gain_spec(),
            final(self).filter_spec() == old(self).filter_spec(),
            old(self).pending() == (0int, 0int) ==> r is None && final(self).pending() == old(self).pending(),
            old(self).pending() != (0int, 0int) ==> {
                let (px, py) = old(self).pending();
                let (cx, cy) = chunk_spec(px, py);
                &&& r matches Some(report) && report.device_id == old(self).id_spec() && report.x == cx
                    && report.y == cy
                &&& final(self).pending() == (px - cx, py - cy)
            },
    {
        if self.pending_report_x == 0 && self.pending_report_y == 0 {
            return None;
        }
        let (x, y) = take_proportional_i8_chunk(&mut self.pending_report_x, &mut self.pending_report_y);
        Some(PointingReport { device_id: self.id, x, y })
    }

    /// A report at the report deadline: the accumulated motion is merged, then the next
    /// pending chunk is taken.
    pub fn flush_report(&mut self, matrix: MatrixCoefficients) -> (r: Option<PointingReport>)
        requires
            old(self).wf(),
            matrix_is_safe(matrix),
        ensures
            final(self).wf(),
            final(self).init_spec() == old(self).init_spec(),
            final(self).requested_cpi_spec() == old(self).requested_cpi_spec(),
            final(self).id_spec() == old(self).id_spec(),
            final(self).intervals() == old(self).intervals(),
            ({
                let (ax, ay) = old(self).accumulated();
                final(self).accumulated() == (ax - clamp_i16_spec(ax), ay - clamp_i16_spec(ay))
            }),
            old(self).accumulated() == (0int, 0int) ==> {
                &&& final(self).transform_spec() == old(self).transform_spec()
                &&& final(self).filter_spec() == old(self).filter_spec()
                &&& final(self).gain_spec() == old(self).gain_spec()
            },
            old(self).accumulated() != (0int, 0int) ==> {
                let (ax, ay) = old(self).accumulated();
                let rx = clamp_i16_spec(ax);
                let ry = clamp_i16_spec(ay);
                let (tx, ty) = transform_output(old(self).transform_spec(), rx, ry, matrix);
                let (h, (fx, fy)) = heading_step(old(self).filter_spec(), tx, ty);
                let g = gain_step(old(self).gain_spec(), fx, fy, unity_gains(), 100).0;
                &&& transform_next(old(self).transform_spec(), final(self).transform_spec(), rx, ry, matrix)
                &&& final(self).filter_spec() == h
                &&& final(self).gain_spec() == g
            },
            ({
                let (mx, my) = merged_pending(
                    old(self).accumulated(),
                    old(self).pending(),
                    old(self).transform_spec(),
                    old(self).filter_spec(),
                    old(self).gain_spec(),
                    matrix,
                );
                &&& (mx, my) == (0int, 0int) ==> r is None && final(self).pending() == (mx, my)
                &&& (mx, my) != (0int, 0int) ==> {
                    let (cx, cy) = chunk_spec(mx, my);
                    &&& r matches Some(report) && report.device_id == old(self).id_spec() && report.x
                        == cx && report.y == cy
                    &&& final(self).pending() == (mx - cx, my - cy)
                }
            }),
    {
        self.merge_accumulated_motion(matrix);
        self.take_pending_report()
    }
}

} // verus!
