use std::time::{Instant, SystemTime, SystemTimeError, UNIX_EPOCH};

use vstd::prelude::*;

use crate::duration::Duration;
use crate::measurement::Measurement;

verus! {

#[verifier::external_type_specification]
#[verifier::external_body]
pub struct ExInstant(Instant);

#[verifier::external_type_specification]
#[verifier::external_body]
pub struct ExSystemTime(SystemTime);

#[verifier::external_type_specification]
#[verifier::external_body]
pub struct ExSystemTimeError(SystemTimeError);

/// Relies on `Instant::now`: a reading of the monotonic clock. Nothing is
/// promised of its value.
pub assume_specification[ std::time::Instant::now ]() -> Instant;

/// Relies on `Instant::elapsed`: the time since `self` was read. Nothing is
/// promised of its value.
pub assume_specification[ std::time::Instant::elapsed ](i: &Instant) -> core::time::Duration;

/// Relies on `Duration::as_nanos`: the whole nanoseconds of a span. Nothing
/// is promised of its value.
pub assume_specification[ core::time::Duration::as_nanos ](d: &core::time::Duration) -> u128;

/// Relies on `SystemTime::now`: a reading of the wall clock. Nothing is
/// promised of its value.
pub assume_specification[ std::time::SystemTime::now ]() -> SystemTime;

/// Relies on `SystemTime::duration_since`, from the UNIX epoch: the time
/// since the epoch, or an error when the clock reads before it.
#[verifier::external_body]
fn since_epoch(t: &SystemTime) -> Result<core::time::Duration, SystemTimeError> {
    t.duration_since(UNIX_EPOCH)
}

/// `ns` saturated at `u64::MAX`.
pub fn saturate_nanos(ns: u128) -> (r: u64)
    ensures
        r == (if ns > u64::MAX as u128 {
            u64::MAX
        } else {
            ns as u64
        }),
{
    if ns > u64::MAX as u128 {
        u64::MAX
    } else {
        ns as u64
    }
}

/// Nanoseconds since the UNIX epoch by the wall clock; `0` when the clock
/// reads before the epoch.
pub fn unix_timestamp_nanos() -> u128 {
    match since_epoch(&SystemTime::now()) {
        Ok(d) => d.as_nanos(),
        Err(_) => 0,
    }
}

/// Runs `f` and returns its result with the time it took.
pub fn measure<T, F: FnOnce() -> T>(f: F) -> (r: (T, Duration))
    requires
        f.requires(()),
    ensures
        f.ensures((), r.0),
{
    let start = Instant::now();
    let result = f();
    let nanos = start.elapsed().as_nanos();
    (result, Duration::from_nanos(nanos))
}

/// Runs `f` and returns its result with a measurement named `name`: the
/// time it took, and when it started by the wall clock.
pub fn measure_named<T, F: FnOnce() -> T>(name: &'static str, f: F) -> (r: (T, Measurement))
    requires
        f.requires(()),
    ensures
        f.ensures((), r.0),
        r.1.name@ == name@,
{
    let timestamp = unix_timestamp_nanos();
    let start = Instant::now();
    let result = f();
    let nanos = start.elapsed().as_nanos();
    (result, Measurement::new(name, Duration::from_nanos(nanos), timestamp))
}

} // verus!
