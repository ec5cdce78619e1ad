//! Conversions of the embassy-time clock between ticks and units of time.
//!
//! The tick rate is a build option of embassy-time, so what a conversion gives is named here
//! rather than stated; the callers' contracts speak of these names.
use vstd::prelude::*;

verus! {

/// The period of a frequency in clock ticks, as `embassy_time::Duration::from_hz` gives it.
pub uninterp spec fn ticks_from_hz(hz: u64) -> u64;

/// A time in microseconds in clock ticks, as `embassy_time::Duration::from_micros` gives it.
pub uninterp spec fn ticks_from_micros(micros: u64) -> u64;

/// A time in milliseconds in clock ticks, as `embassy_time::Duration::from_millis` gives it.
pub uninterp spec fn ticks_from_millis(millis: u64) -> u64;

/// The milliseconds since boot of an instant `ticks` clock ticks after boot, as
/// `embassy_time::Instant::as_millis` gives it.
pub uninterp spec fn millis_of_ticks(ticks: u64) -> u64;

/// Calls `embassy_time::Duration::from_hz` and reads the ticks of the period. The source
/// divides the tick rate by `hz`, rounding to the nearest tick, and gives one tick where `hz`
/// reaches the tick rate, so the period is at least one tick. `hz` must not be zero (the
/// division would panic).
#[verifier::external_body]
pub(crate) fn period_ticks(hz: u64) -> (r: u64)
    requires
        hz > 0,
    ensures
        r == ticks_from_hz(hz),
        r >= 1,
{
    embassy_time::Duration::from_hz(hz).as_ticks()
}

/// Calls `embassy_time::Duration::from_micros` and reads its ticks: `micros` at the tick
/// rate, rounded up. Up to one second the product in the source cannot overflow.
#[verifier::external_body]
pub(crate) fn micros_ticks(micros: u64) -> (r: u64)
    requires
        micros <= 1_000_000,
    ensures
        r == ticks_from_micros(micros),
{
    embassy_time::Duration::from_micros(micros).as_ticks()
}

/// Calls `embassy_time::Duration::from_millis` and reads its ticks: `millis` at the tick
/// rate, rounded up. Up to a thousand seconds the product in the source cannot overflow.
#[verifier::external_body]
pub(crate) fn millis_ticks(millis: u64) -> (r: u64)
    requires
        millis <= 1_000_000,
    ensures
        r == ticks_from_millis(millis),
{
    embassy_time::Duration::from_millis(millis).as_ticks()
}

/// Calls `embassy_time::Instant::from_ticks(ticks).as_millis()`: the ticks converted to
/// milliseconds at the tick rate, rounded down. The source multiplies the ticks by at most
/// 1000 before dividing, so tick counts whose product would overflow are left out.
#[verifier::external_body]
pub(crate) fn instant_millis(ticks: u64) -> (r: u64)
    requires
        ticks <= u64::MAX / 1000,
    ensures
        r == millis_of_ticks(ticks),
{
    embassy_time::Instant::from_ticks(ticks).as_millis()
}

} // verus!
