use vstd::prelude::*;

use crate::duration::Duration;

verus! {

/// One timed operation: its name, how long it took, and when it was taken
/// (nanoseconds since the UNIX epoch).
#[derive(Clone, Copy, Debug)]
pub struct Measurement {
    pub name: &'static str,
    pub duration: Duration,
    pub timestamp: u128,
}

impl Measurement {
    /// A measurement of `name` that took `duration`, taken at `timestamp`.
    pub fn new(name: &'static str, duration: Duration, timestamp: u128) -> (m: Measurement)
        ensures
            m.name@ == name@,
            m.duration == duration,
            m.timestamp == timestamp,
    {
        Measurement { name, duration, timestamp }
    }

    /// A measurement of `name` with zero duration and zero timestamp.
    pub fn zero(name: &'static str) -> (m: Measurement)
        ensures
            m.name@ == name@,
            m.duration.nanos == 0,
            m.timestamp == 0,
    {
        Measurement { name, duration: Duration::zero(), timestamp: 0 }
    }
}

} // verus!
