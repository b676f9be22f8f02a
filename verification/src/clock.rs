//! Wall-clock readings used for access times and checkpoint stamps.

use vstd::prelude::*;

use std::time::{Duration, SystemTime, SystemTimeError};

verus! {

#[verifier::external_type_specification]
#[verifier::external_body]
pub struct ExSystemTime(SystemTime);

#[verifier::external_type_specification]
#[verifier::external_body]
pub struct ExSystemTimeError(SystemTimeError);

/// Calls `SystemTime::now`. Nothing is promised of the reading: it is whatever the
/// system clock says.
#[verifier::external_body]
fn system_now() -> SystemTime {
    SystemTime::now()
}

/// Calls `SystemTime::duration_since` with the Unix epoch: the time elapsed since the
/// epoch, or an error when `t` is earlier. Nothing is promised of either.
#[verifier::external_body]
fn since_epoch(t: &SystemTime) -> Result<Duration, SystemTimeError> {
    t.duration_since(std::time::UNIX_EPOCH)
}

/// Calls `Duration::as_nanos`: the whole nanoseconds of `d`. Durations are not modelled,
/// so nothing is promised of the number.
#[verifier::external_body]
fn duration_nanos(d: &Duration) -> u128 {
    d.as_nanos()
}

/// Calls `Duration::as_secs`: the whole seconds of `d`. Durations are not modelled, so
/// nothing is promised of the number.
#[verifier::external_body]
fn duration_secs(d: &Duration) -> u64 {
    d.as_secs()
}

/// Nanoseconds since the Unix epoch on the system clock, truncated to 64 bits; 0 when
/// the clock reads earlier than the epoch.
pub(crate) fn unix_time_nanos() -> u64 {
    match since_epoch(&system_now()) {
        Ok(d) => {
            let n = duration_nanos(&d);
            #[verifier::truncate]
            (n as u64)
        },
        Err(_) => 0,
    }
}

/// Whole seconds since the Unix epoch on the system clock; 0 when the clock reads
/// earlier than the epoch.
pub(crate) fn unix_time_secs() -> u64 {
    match since_epoch(&system_now()) {
        Ok(d) => duration_secs(&d),
        Err(_) => 0,
    }
}

} // verus!
