use vstd::prelude::*;

use crate::duration::Duration;
use crate::hdr::HdrHistogram;
use crate::histogram::FastHistogram;
use crate::quantile::Quantile;

verus! {

/// What a histogram backend offers, so that code can be written once for
/// the fast histogram and the high-precision one.
pub trait HistBackend: Sized {
    /// The backend's internal consistency.
    spec fn backend_wf(&self) -> bool;

    /// How many samples have been recorded since it was made or reset.
    spec fn recorded(&self) -> nat;

    /// An empty histogram.
    fn new_backend() -> (h: Self)
        ensures
            h.backend_wf(),
            h.recorded() == 0,
    ;

    /// Records one sample; the count grows by one until it is full.
    fn record(&mut self, value_ns: u64)
        requires
            old(self).backend_wf(),
        ensures
            final(self).backend_wf(),
            old(self).recorded() < u64::MAX ==> final(self).recorded() == old(self).recorded() + 1,
    ;

    /// Records a `Duration`.
    fn record_duration(&mut self, duration: Duration)
        requires
            old(self).backend_wf(),
        ensures
            final(self).backend_wf(),
            old(self).recorded() < u64::MAX ==> final(self).recorded() == old(self).recorded() + 1,
    ;

    /// The number of samples, saturated at `u64::MAX`.
    fn count(&self) -> (r: u64)
        requires
            self.backend_wf(),
        ensures
            self.recorded() < u64::MAX ==> r == self.recorded(),
    ;

    /// Whether no sample has been recorded.
    fn is_empty(&self) -> (r: bool)
        requires
            self.backend_wf(),
        ensures
            r == (self.recorded() == 0),
    ;

    /// The least sample, if any.
    fn min(&self) -> (r: Option<u64>)
        requires
            self.backend_wf(),
        ensures
            r.is_none() == (self.recorded() == 0),
    ;

    /// The greatest sample, if any.
    fn max(&self) -> (r: Option<u64>)
        requires
            self.backend_wf(),
        ensures
            r.is_none() == (self.recorded() == 0),
    ;

    /// The `q` percentile, if any sample was recorded.
    fn percentile(&self, q: Quantile) -> (r: Option<u64>)
        requires
            self.backend_wf(),
            q.wf(),
        ensures
            r.is_none() == (self.recorded() == 0),
    ;

    /// The median, if any sample was recorded.
    fn median(&self) -> (r: Option<u64>)
        requires
            self.backend_wf(),
        ensures
            r.is_none() == (self.recorded() == 0),
    ;

    /// Several percentiles, one for each of `qs`.
    fn percentiles(&self, qs: &[Quantile]) -> (r: Vec<Option<u64>>)
        requires
            self.backend_wf(),
            forall|i: int| 0 <= i < qs@.len() ==> (#[trigger] qs@[i]).wf(),
        ensures
            r@.len() == qs@.len(),
            forall|i: int| 0 <= i < qs@.len() ==> (#[trigger] r@[i]).is_none() == (self.recorded() == 0),
    ;

    /// The `q` percentile as a `Duration`.
    fn percentile_duration(&self, q: Quantile) -> (r: Option<Duration>)
        requires
            self.backend_wf(),
            q.wf(),
        ensures
            r.is_none() == (self.recorded() == 0),
    ;

    /// The median as a `Duration`.
    fn median_duration(&self) -> (r: Option<Duration>)
        requires
            self.backend_wf(),
        ensures
            r.is_none() == (self.recorded() == 0),
    ;

    /// Forgets every sample.
    fn reset(&mut self)
        requires
            old(self).backend_wf(),
        ensures
            final(self).backend_wf(),
            final(self).recorded() == 0,
    ;
}

impl HistBackend for FastHistogram {
    open spec fn backend_wf(&self) -> bool {
        self.wf()
    }

    open spec fn recorded(&self) -> nat {
        self@.len()
    }

    fn new_backend() -> (h: Self) {
        FastHistogram::new()
    }

    fn record(&mut self, value_ns: u64) {
        FastHistogram::record(self, value_ns);
    }

    fn record_duration(&mut self, duration: Duration) {
        FastHistogram::record_duration(self, duration);
    }

    fn count(&self) -> (r: u64) {
        FastHistogram::count(self)
    }

    fn is_empty(&self) -> (r: bool) {
        FastHistogram::is_empty(self)
    }

    fn min(&self) -> (r: Option<u64>) {
        FastHistogram::min(self)
    }

    fn max(&self) -> (r: Option<u64>) {
        FastHistogram::max(self)
    }

    fn percentile(&self, q: Quantile) -> (r: Option<u64>) {
        FastHistogram::percentile(self, q)
    }

    fn median(&self) -> (r: Option<u64>) {
        FastHistogram::median(self)
    }

    fn percentiles(&self, qs: &[Quantile]) -> (r: Vec<Option<u64>>) {
        FastHistogram::percentiles(self, qs)
    }

    fn percentile_duration(&self, q: Quantile) -> (r: Option<Duration>) {
        FastHistogram::percentile_duration(self, q)
    }

    fn median_duration(&self) -> (r: Option<Duration>) {
        FastHistogram::median_duration(self)
    }

    fn reset(&mut self) {
        FastHistogram::reset(self);
    }
}

impl HistBackend for HdrHistogram {
    open spec fn backend_wf(&self) -> bool {
        self.wf()
    }

    open spec fn recorded(&self) -> nat {
        HdrHistogram::recorded(self)
    }

    fn new_backend() -> (h: Self) {
        match HdrHistogram::new() {
            Ok(h) => h,
            Err(_) => {
                proof {
                    assert(false);
                }
                vstd::pervasive::unreached()
            },
        }
    }

    fn record(&mut self, value_ns: u64) {
        HdrHistogram::record(self, value_ns);
    }

    fn record_duration(&mut self, duration: Duration) {
        HdrHistogram::record_duration(self, duration);
    }

    fn count(&self) -> (r: u64) {
        HdrHistogram::count(self)
    }

    fn is_empty(&self) -> (r: bool) {
        HdrHistogram::is_empty(self)
    }

    fn min(&self) -> (r: Option<u64>) {
        HdrHistogram::min(self)
    }

    fn max(&self) -> (r: Option<u64>) {
        HdrHistogram::max(self)
    }

    fn percentile(&self, q: Quantile) -> (r: Option<u64>) {
        HdrHistogram::percentile(self, q)
    }

    fn median(&self) -> (r: Option<u64>) {
        HdrHistogram::median(self)
    }

    fn percentiles(&self, qs: &[Quantile]) -> (r: Vec<Option<u64>>) {
        HdrHistogram::percentiles(self, qs)
    }

    fn percentile_duration(&self, q: Quantile) -> (r: Option<Duration>) {
        HdrHistogram::percentile_duration(self, q)
    }

    fn median_duration(&self) -> (r: Option<Duration>) {
        HdrHistogram::median_duration(self)
    }

    fn reset(&mut self) {
        HdrHistogram::reset(self);
    }
}

} // verus!
