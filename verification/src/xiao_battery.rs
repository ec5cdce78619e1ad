//! Battery reporting of the XIAO nRF52840: the divider of its battery input, the debounced
//! charging signal, and the replay of the left half's battery state to a reconnected central.
use vstd::prelude::*;

verus! {

/// Resistance below the measuring point of the battery divider (kOhm).
pub const DIVIDER_MEASURED: u32 = 510;
/// Total resistance of the battery divider (kOhm).
pub const DIVIDER_TOTAL: u32 = 1510;
pub const BATTERY_SAMPLE_INTERVAL_SECS: u64 = 60;
pub const CHARGING_INITIAL_DELAY_SECS: u64 = 2;
pub const CHARGING_DEBOUNCE_MS: u64 = 20;

/// The charging signal is active low.
pub open spec fn charging_from_level(level_low: bool) -> bool {
    level_low
}

/// The reported charging state, updated after each debounced edge of the signal.
pub struct XiaoChargingStateReader {
    pub charging: bool,
}

impl XiaoChargingStateReader {
    /// The first reading (after the start-up delay); it is always reported.
    pub fn new(level_low: bool) -> (r: Self)
        ensures
            r.charging == charging_from_level(level_low),
    {
        XiaoChargingStateReader { charging: level_low }
    }

    /// The level read after an edge and the debounce time: a changed state to report.
    pub fn on_edge(&mut self, level_low: bool) -> (r: Option<bool>)
        ensures
            r == if charging_from_level(level_low) != old(self).charging {
                Some(charging_from_level(level_low))
            } else {
                None::<bool>
            },
            final(self).charging == charging_from_level(level_low),
    {
        if level_low != self.charging {
            self.charging = level_low;
            Some(level_low)
        } else {
            None
        }
    }
}

/// The latest battery state of this half, replayed when the central (re)connects.
pub struct PeripheralBatterySnapshot<T> {
    pub status: Option<T>,
}

impl<T: Copy> PeripheralBatterySnapshot<T> {
    pub fn new() -> (r: Self)
        ensures
            r.status is None,
    {
        PeripheralBatterySnapshot { status: None }
    }

    /// A new battery state.
    pub fn on_status(&mut self, status: T)
        ensures
            final(self).status == Some(status),
    {
        self.status = Some(status);
    }

    /// A connection change: the state to publish again when the central connected.
    pub fn on_connection(&self, connected: bool) -> (r: Option<T>)
        ensures
            r == if connected { self.status } else { None::<T> },
    {
        if connected {
            self.status
        } else {
            None
        }
    }
}

} // verus!
