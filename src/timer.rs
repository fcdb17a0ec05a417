use std::time::Instant;

use vstd::prelude::*;

use crate::timing::saturate_nanos;
use crate::watch::{clamp_to, samples_under, Registry, Watch};

verus! {

impl Registry {
    /// Records under `name` the nanoseconds elapsed since `start`,
    /// saturated at `u64::MAX`, as `record` does (which clamps them to the
    /// bounds); returns the nanoseconds before clamping.
    pub fn record_instant(&mut self, name: &str, start: Instant) -> (r: u64)
        requires
            old(self).wf(),
        ensures
            final(self).wf(),
            final(self).lowest() == old(self).lowest(),
            final(self).highest() == old(self).highest(),
            samples_under(old(self)@, name@).len() < u64::MAX ==> final(self)@ == old(self)@.insert(
                name@,
                samples_under(old(self)@, name@).push(clamp_to(r, old(self).lowest(), old(self).highest())),
            ),
            samples_under(old(self)@, name@).len() >= u64::MAX ==> final(self)@ == old(self)@,
    {
        let ns = saturate_nanos(start.elapsed().as_nanos());
        self.record(name, ns);
        ns
    }
}

impl Watch {
    /// Records under `name` the nanoseconds elapsed since `start`, as
    /// `Registry::record_instant` does, under the write lock; returns the
    /// nanoseconds before clamping.
    pub fn record_instant(&self, name: &str, start: Instant) -> (r: u64) {
        let ns = saturate_nanos(start.elapsed().as_nanos());
        self.record(name, ns);
        ns
    }
}

/// A timer that records the time since it started under a name in a
/// registry, once: at `stop` or `finish`, whichever comes first; later
/// calls record nothing.
pub struct Timer {
    watch: Watch,
    name: String,
    start: Option<Instant>,
}

impl Timer {
    /// Whether the timer has yet to record.
    pub closed spec fn is_armed(&self) -> bool {
        self.start.is_some()
    }

    /// The name the timer records under.
    pub closed spec fn name(&self) -> Seq<char> {
        self.name@
    }

    /// Starts timing `name`, to be recorded into `watch`.
    pub fn new(watch: Watch, name: &str) -> (t: Timer)
        ensures
            t.is_armed(),
            t.name() == name@,
    {
        Timer { watch, name: name.to_owned(), start: Some(Instant::now()) }
    }

    /// Records the elapsed time into `registry` if the timer is armed, and
    /// disarms it: an armed timer adds exactly one sample under its name,
    /// the returned nanoseconds clamped to the bounds; a disarmed one adds
    /// none.
    pub fn finish_in(&mut self, registry: &mut Registry) -> (r: Option<u64>)
        requires
            old(registry).wf(),
        ensures
            final(registry).wf(),
            final(registry).lowest() == old(registry).lowest(),
            final(registry).highest() == old(registry).highest(),
            !final(self).is_armed(),
            final(self).name() == old(self).name(),
            r.is_some() == old(self).is_armed(),
            !old(self).is_armed() ==> final(registry)@ == old(registry)@,
            old(self).is_armed() && samples_under(old(registry)@, old(self).name()).len() < u64::MAX
                ==> final(registry)@ == old(registry)@.insert(
                old(self).name(),
                samples_under(old(registry)@, old(self).name()).push(
                    clamp_to(r.unwrap(), old(registry).lowest(), old(registry).highest()),
                ),
            ),
    {
        match self.start.take() {
            Some(start) => Some(registry.record_instant(&self.name, start)),
            None => None,
        }
    }

    /// Records the elapsed time if the timer is armed, and disarms it.
    /// This is `finish_in` on the shared registry, under its write lock.
    /// Returns the nanoseconds recorded (before clamping to the bounds), or
    /// `None` when it had already recorded: a timer records at most once.
    pub fn finish(&mut self) -> (r: Option<u64>)
        ensures
            !final(self).is_armed(),
            r.is_some() == old(self).is_armed(),
            final(self).name() == old(self).name(),
    {
        let watch = self.watch.clone();
        let (mut registry, handle) = watch.acquire_registry();
        let r = self.finish_in(&mut registry);
        handle.release_write(registry);
        r
    }

    /// Stops the timer and records the elapsed nanoseconds, which it
    /// returns; `0` when it had already recorded.
    pub fn stop(self) -> (r: u64)
        ensures
            !self.is_armed() ==> r == 0,
    {
        let mut t = self;
        match t.finish() {
            Some(ns) => ns,
            None => 0,
        }
    }
}

} // verus!
