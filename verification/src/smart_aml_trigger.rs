//! Entering the auto mouse layer only after deliberate trackball motion.
use vstd::prelude::*;
use crate::clock::{millis_ticks, ticks_from_millis};
use crate::fixed_math::{abs, clamp_i32_spec};

verus! {

/// The trackball must move this far before the mouse layer is entered.
pub const MINIMUM_ENTRY_MOVEMENT: u32 = 12;
pub const IMMEDIATE_MOTION_THRESHOLD: i32 = 12;
pub const CUMULATIVE_MOTION_THRESHOLD: u32 = 12;
/// Motion further apart than this (in milliseconds) does not accumulate.
pub const ACCUMULATION_WINDOW_MS: u64 = 100;

/// Signed motion accumulated within one burst; opposite jitter cancels.
pub struct MotionAccumulator {
    pub x: i32,
    pub y: i32,
}

impl Default for MotionAccumulator {
    fn default() -> (r: Self)
        ensures
            r.x == 0 && r.y == 0,
    {
        MotionAccumulator { x: 0, y: 0 }
    }
}

fn saturating_add_i32(a: i32, b: i32) -> (r: i32)
    ensures
        r as int == clamp_i32_spec(a + b),
{
    let sum = a as i64 + b as i64;
    if sum > i32::MAX as i64 {
        i32::MAX
    } else if sum < i32::MIN as i64 {
        i32::MIN
    } else {
        sum as i32
    }
}

impl MotionAccumulator {
    pub fn reset(&mut self)
        ensures
            final(self).x == 0 && final(self).y == 0,
    {
        self.x = 0;
        self.y = 0;
    }

    /// Adds motion (saturating) and reports whether the net movement `|x| + |y|` reached the threshold.
    pub fn add(&mut self, x: i32, y: i32) -> (r: bool)
        ensures
            final(self).x as int == clamp_i32_spec(old(self).x + x),
            final(self).y as int == clamp_i32_spec(old(self).y + y),
            r == (abs(final(self).x as int) + abs(final(self).y as int) >= CUMULATIVE_MOTION_THRESHOLD),
    {
        self.x = saturating_add_i32(self.x, x);
        self.y = saturating_add_i32(self.y, y);
        let ax = if self.x < 0 { (-(self.x as i64)) as u32 } else { self.x as u32 };
        let ay = if self.y < 0 { (-(self.y as i64)) as u32 } else { self.y as u32 };
        ax.saturating_add(ay) >= CUMULATIVE_MOTION_THRESHOLD
    }
}

/// Which axis a pointing axis event reports.
#[derive(Clone, Copy, Debug, PartialEq, Eq, Structural)]
pub enum AxisId {
    X,
    Y,
    Other,
}

/// One axis of a pointing event: whether it is relative, which axis, and its value.
#[derive(Clone, Copy, Debug, PartialEq, Eq, Structural)]
pub struct AxisValue {
    pub relative: bool,
    pub axis: AxisId,
    pub value: i16,
}

/// The relative x (or y) motion of a prefix of an event's axes, summed with saturation.
pub open spec fn relative_sum(axes: Seq<AxisValue>, axis: AxisId) -> int
    decreases axes.len(),
{
    if axes.len() == 0 {
        0
    } else {
        let rest = relative_sum(axes.drop_last(), axis);
        let a = axes.last();
        if a.relative && a.axis == axis { clamp_i32_spec(rest + a.value) } else { rest }
    }
}

/// The relative x and y motion of a pointing event.
pub fn relative_xy(axes: &[AxisValue]) -> (r: (i32, i32))
    ensures
        r.0 as int == relative_sum(axes@, AxisId::X),
        r.1 as int == relative_sum(axes@, AxisId::Y),
{
    let mut x: i32 = 0;
    let mut y: i32 = 0;
    let mut i: usize = 0;
    while i < axes.len()
        invariant
            i <= axes@.len(),
            x as int == relative_sum(axes@.subrange(0, i as int), AxisId::X),
            y as int == relative_sum(axes@.subrange(0, i as int), AxisId::Y),
        decreases axes@.len() - i,
    {
        proof {
            assert(axes@.subrange(0, i + 1).drop_last() =~= axes@.subrange(0, i as int));
        }
        let axis = axes[i];
        if axis.relative {
            match axis.axis {
                AxisId::X => x = saturating_add_i32(x, axis.value as i32),
                AxisId::Y => y = saturating_add_i32(y, axis.value as i32),
                AxisId::Other => {},
            }
        }
        i = i + 1;
    }
    proof {
        assert(axes@.subrange(0, axes@.len() as int) =~= axes@);
    }
    (x, y)
}

/// Synthesizes a trigger for the auto mouse layer from source-device motion, ignoring jitter.
pub struct SmartAutoMouseTrigger {
    pub source_device_id: u8,
    pub trigger_device_id: u8,
    pub trigger_delta: i16,
    pub accumulated_motion: MotionAccumulator,
    /// Time of the last motion, in clock ticks.
    pub last_motion_at: Option<u64>,
    /// The accumulation window, in clock ticks.
    pub accumulation_window: u64,
}

impl SmartAutoMouseTrigger {
    /// A trigger whose motion accumulates within `accumulation_window` clock ticks.
    pub fn with_window(
        source_device_id: u8,
        trigger_device_id: u8,
        trigger_delta: i16,
        accumulation_window: u64,
    ) -> (r: Self)
        ensures
            r.source_device_id == source_device_id,
            r.trigger_device_id == trigger_device_id,
            r.trigger_delta == trigger_delta,
            r.accumulated_motion.x == 0 && r.accumulated_motion.y == 0,
            r.last_motion_at is None,
            r.accumulation_window == accumulation_window,
    {
        Self {
            source_device_id,
            trigger_device_id,
            trigger_delta,
            accumulated_motion: MotionAccumulator { x: 0, y: 0 },
            last_motion_at: None,
            accumulation_window,
        }
    }

    /// A trigger with the [`ACCUMULATION_WINDOW_MS`] window, in ticks of the clock.
    pub fn new(source_device_id: u8, trigger_device_id: u8, trigger_delta: i16) -> (r: Self)
        ensures
            r.source_device_id == source_device_id,
            r.trigger_device_id == trigger_device_id,
            r.trigger_delta == trigger_delta,
            r.accumulated_motion.x == 0 && r.accumulated_motion.y == 0,
            r.last_motion_at is None,
            r.accumulation_window == ticks_from_millis(ACCUMULATION_WINDOW_MS),
    {
        let window = millis_ticks(ACCUMULATION_WINDOW_MS);
        Self::with_window(source_device_id, trigger_device_id, trigger_delta, window)
    }

    /// Handles one pointing event of `device_id` with relative motion `(x, y)` at clock tick
    /// `now`.
    /// Returns the x value of the trigger event to publish (on the trigger device), if any:
    /// a single step of at least 12 counts on either axis, or net motion of at least 12
    /// accumulated from steps at most the accumulation window apart. A held manual layer
    /// suppresses the trigger.
    pub fn handle_motion(&mut self, device_id: u8, x: i32, y: i32, manual_layer_active: bool, now: u64) -> (r: Option<i16>)
        requires
            old(self).last_motion_at matches Some(t) ==> t <= now,
        ensures
            final(self).source_device_id == old(self).source_device_id,
            final(self).trigger_device_id == old(self).trigger_device_id,
            final(self).trigger_delta == old(self).trigger_delta,
            final(self).accumulation_window == old(self).accumulation_window,
            device_id != old(self).source_device_id ==> r is None && *final(self) == *old(self),
            device_id == old(self).source_device_id && manual_layer_active ==> {
                &&& r is None
                &&& final(self).accumulated_motion.x == 0 && final(self).accumulated_motion.y == 0
                &&& final(self).last_motion_at is None
            },
            device_id == old(self).source_device_id && !manual_layer_active && x == 0 && y == 0 ==> {
                r is None && *final(self) == *old(self)
            },
            device_id == old(self).source_device_id && !manual_layer_active && !(x == 0 && y == 0) ==> {
                let fresh = match old(self).last_motion_at {
                    Some(t) => now - t > old(self).accumulation_window,
                    None => true,
                };
                let base_x: int = if fresh { 0 } else { old(self).accumulated_motion.x as int };
                let base_y: int = if fresh { 0 } else { old(self).accumulated_motion.y as int };
                let ax = clamp_i32_spec(base_x + x);
                let ay = clamp_i32_spec(base_y + y);
                let immediate = abs(x as int) >= IMMEDIATE_MOTION_THRESHOLD || abs(y as int) >= IMMEDIATE_MOTION_THRESHOLD;
                let cumulative = abs(ax) + abs(ay) >= CUMULATIVE_MOTION_THRESHOLD;
                &&& final(self).last_motion_at == Some(now)
                &&& (immediate || cumulative) ==> r == Some(old(self).trigger_delta)
                    && final(self).accumulated_motion.x == 0 && final(self).accumulated_motion.y == 0
                &&& !(immediate || cumulative) ==> r is None && final(self).accumulated_motion.x == ax
                    && final(self).accumulated_motion.y == ay
            },
    {
        if device_id != self.source_device_id {
            return None;
        }

        if manual_layer_active {
            self.accumulated_motion.reset();
            self.last_motion_at = None;
            return None;
        }

        if x == 0 && y == 0 {
            return None;
        }

        let fresh = match self.last_motion_at {
            Some(last) => now - last > self.accumulation_window,
            None => true,
        };
        if fresh {
            self.accumulated_motion.reset();
        }
        self.last_motion_at = Some(now);

        let abs_x = if x < 0 { -(x as i64) } else { x as i64 };
        let abs_y = if y < 0 { -(y as i64) } else { y as i64 };
        let immediate_motion = abs_x >= IMMEDIATE_MOTION_THRESHOLD as i64 || abs_y >= IMMEDIATE_MOTION_THRESHOLD as i64;
        let cumulative_motion = self.accumulated_motion.add(x, y);

        if immediate_motion || cumulative_motion {
            self.accumulated_motion.reset();
            Some(self.trigger_delta)
        } else {
            None
        }
    }
}

/// Alternating jitter never accumulates: a step and then the opposite step (within one burst,
/// the first one not saturating) leave the accumulator where it was, as [`MotionAccumulator::add`]
/// computes it.
pub proof fn law_returning_motion_cancels(x0: i32, y0: i32, dx: i32, dy: i32)
    requires
        i32::MIN <= x0 + dx <= i32::MAX,
        i32::MIN <= y0 + dy <= i32::MAX,
    ensures
        clamp_i32_spec(clamp_i32_spec(x0 + dx) - dx) == x0,
        clamp_i32_spec(clamp_i32_spec(y0 + dy) - dy) == y0,
{
}

} // verus!
