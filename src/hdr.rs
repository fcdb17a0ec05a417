use hdrhistogram::{CreationError, RecordError};

use vstd::arithmetic::power2::{lemma2_to64, lemma2_to64_rest, pow2};
use vstd::prelude::*;

use crate::duration::Duration;
use crate::histogram::{rank_of, rank_target};
use crate::quantile::Quantile;

verus! {

/// An `hdrhistogram` histogram of `u64` counts, held whole: its inside is
/// known to the proofs only through `hdr_count` and `hdr_highest`.
#[verifier::external_body]
pub struct HdrCounts(hdrhistogram::Histogram<u64>);

#[verifier::external_type_specification]
pub struct ExCreationError(CreationError);

#[verifier::external_type_specification]
#[verifier::external_body]
pub struct ExRecordError(RecordError);

/// How many samples an HDR histogram has counted since it was made or last
/// reset (its counters keep one count per range of equivalent values, not
/// the values themselves).
pub uninterp spec fn hdr_count(h: HdrCounts) -> nat;

/// The bins of an HDR histogram that hold samples, in increasing order:
/// for each, the highest value equivalent to it and its count.
pub uninterp spec fn hdr_bins_of(h: HdrCounts) -> Seq<(u64, u64)>;

/// The sum of the counts of `bins`.
pub open spec fn bin_total(bins: Seq<(u64, u64)>) -> int
    decreases bins.len(),
{
    if bins.len() == 0 {
        0
    } else {
        bins[0].1 + bin_total(bins.drop_first())
    }
}

/// A rank the bins' counts reach is found in some bin.
pub proof fn lemma_bin_at_rank_found(bins: Seq<(u64, u64)>, rank: int)
    requires
        1 <= rank <= bin_total(bins),
    ensures
        bin_at_rank(bins, rank).is_some(),
    decreases bins.len(),
{
    if bins.len() > 0 && rank > bins[0].1 {
        lemma_bin_at_rank_found(bins.drop_first(), rank - bins[0].1);
    }
}

/// The count `len` reports for `c` samples: `c`, saturated at `u64::MAX`.
pub open spec fn saturated_count(c: nat) -> nat {
    if c < u64::MAX {
        c
    } else {
        u64::MAX as nat
    }
}

/// The rank a quantile asks for among `n` samples: `ceil(q * n)`, and `n`
/// at `1`.
pub open spec fn hdr_rank(q: (nat, nat), n: nat) -> int {
    if q.0 == q.1 {
        n as int
    } else {
        rank_of(q, n)
    }
}

/// The highest value an HDR histogram was made to track.
pub uninterp spec fn hdr_highest(h: HdrCounts) -> u64;

/// Relies on `hdrhistogram::Histogram::new_with_bounds`: it refuses a
/// lowest value of `0` or above `u64::MAX / 2`, a highest value below twice
/// the lowest, and more than 5 significant figures, in that order; then it
/// refuses only when `floor(log2(low))` plus the bits of the figures
/// exceeds 63 (its bin count is a `u32`, so the `usize` check never fails).
/// A histogram it makes is empty and tracks up to `high`.
#[verifier::external_body]
fn hdr_new(low: u64, high: u64, sigfig: u8) -> (r: Result<
    HdrCounts,
    CreationError,
>)
    ensures
        low < 1 ==> (r matches Err(CreationError::LowIsZero)),
        1 <= low && low > u64::MAX / 2 ==> (r matches Err(CreationError::LowExceedsMax)),
        1 <= low <= u64::MAX / 2 && high < 2 * low ==> (r matches Err(CreationError::HighLessThanTwiceLow)),
        1 <= low <= u64::MAX / 2 && high >= 2 * low && sigfig > 5 ==> (r matches Err(CreationError::SigFigExceedsMax)),
        valid_config(low, high, sigfig) ==> r is Ok,
        r matches Ok(h) ==> hdr_count(h) == 0 && hdr_highest(h) == high,
{
    hdrhistogram::Histogram::new_with_bounds(low, high, sigfig).map(HdrCounts)
}

/// Relies on `hdrhistogram::Histogram::record`: a value up to the highest
/// tracked one is recorded; a larger one is refused and nothing changes.
#[verifier::external_body]
fn hdr_record(h: &mut HdrCounts, v: u64) -> (r: Result<(), RecordError>)
    ensures
        hdr_highest(*final(h)) == hdr_highest(*old(h)),
        v <= hdr_highest(*old(h)) ==> r is Ok,
        r is Ok ==> hdr_count(*final(h)) == hdr_count(*old(h)) + 1,
        r is Err ==> hdr_count(*final(h)) == hdr_count(*old(h)),
{
    h.0.record(v)
}

/// Relies on `hdrhistogram::Histogram::len`: the number of samples,
/// saturated at `u64::MAX`; below that it is the sum of the bin counts
/// (no counter can have saturated).
#[verifier::external_body]
fn hdr_len(h: &HdrCounts) -> (r: u64)
    ensures
        r < u64::MAX ==> bin_total(hdr_bins_of(*h)) == r,
        hdr_count(*h) < u64::MAX ==> r == hdr_count(*h),
        hdr_count(*h) >= u64::MAX ==> r == u64::MAX,
{
    h.0.len()
}

/// Relies on `hdrhistogram::Histogram::min`: the lowest value equivalent
/// to the least sample, so at most the value of the first bin.
#[verifier::external_body]
fn hdr_min(h: &HdrCounts) -> (r: u64)
    ensures
        hdr_bins_of(*h).len() > 0 ==> r <= hdr_bins_of(*h)[0].0,
{
    h.0.min()
}

/// Relies on `hdrhistogram::Histogram::max`: the highest value equivalent
/// to the greatest sample, which is the value of the last bin.
#[verifier::external_body]
fn hdr_max(h: &HdrCounts) -> (r: u64)
    ensures
        hdr_bins_of(*h).len() > 0 ==> r == hdr_bins_of(*h).last().0,
{
    h.0.max()
}

/// Relies on `hdrhistogram::Histogram::reset`: every sample is forgotten,
/// the configuration kept.
#[verifier::external_body]
fn hdr_reset(h: &mut HdrCounts)
    ensures
        hdr_count(*final(h)) == 0,
        hdr_highest(*final(h)) == hdr_highest(*old(h)),
{
    h.0.reset()
}

/// Relies on `hdrhistogram::Histogram::iter_recorded`: for each bin that
/// holds samples, in increasing order, the highest value equivalent to the
/// bin and the bin's count.
#[verifier::external_body]
fn hdr_bins(h: &HdrCounts) -> (r: Vec<(u64, u64)>)
    ensures
        r@ == hdr_bins_of(*h),
{
    h.0.iter_recorded().map(|v| (v.value_iterated_to(), v.count_at_value())).collect()
}

/// The bits `hdrhistogram` gives to `sigfig` significant figures:
/// `ceil(log2(2 * 10^sigfig))`.
pub open spec fn sigfig_bits(sigfig: u8) -> nat {
    if sigfig == 0 {
        1
    } else if sigfig == 1 {
        5
    } else if sigfig == 2 {
        8
    } else if sigfig == 3 {
        11
    } else if sigfig == 4 {
        15
    } else {
        18
    }
}

/// A configuration that `new_with_bounds` accepts: the range checks, and a
/// lowest value small enough that its binary exponent (even computed in
/// floating point, which may round up by one) plus the figures' bits fits
/// in 63 bits.
pub open spec fn valid_config(low: u64, high: u64, sigfig: u8) -> bool {
    &&& 1 <= low <= u64::MAX / 2
    &&& high >= 2 * low
    &&& sigfig <= 5
    &&& low < pow2((62 - sigfig_bits(sigfig)) as nat)
}

/// The value of the first bin at which the running count reaches `rank`.
pub open spec fn bin_at_rank(bins: Seq<(u64, u64)>, rank: int) -> Option<u64>
    decreases bins.len(),
{
    if bins.len() == 0 {
        None
    } else if rank <= bins[0].1 {
        Some(bins[0].0)
    } else {
        bin_at_rank(bins.drop_first(), rank - bins[0].1)
    }
}

/// The value of the first of `bins` at which the running count reaches
/// `rank`; `None` when the counts never reach it.
pub fn value_at_rank_in_bins(bins: &Vec<(u64, u64)>, rank: u64) -> (r: Option<u64>)
    ensures
        r == bin_at_rank(bins@, rank as int),
{
    let mut i: usize = 0;
    let mut remaining: u64 = rank;
    assert(bins@.subrange(0, bins@.len() as int) =~= bins@);
    while i < bins.len()
        invariant
            i <= bins@.len(),
            bin_at_rank(bins@, rank as int) == bin_at_rank(
                bins@.subrange(i as int, bins@.len() as int),
                remaining as int,
            ),
        decreases bins@.len() - i,
    {
        let ghost rest = bins@.subrange(i as int, bins@.len() as int);
        assert(rest[0] == bins@[i as int]);
        assert(rest.drop_first() =~= bins@.subrange(i as int + 1, bins@.len() as int));
        let (value, count) = bins[i];
        if remaining <= count {
            return Some(value);
        }
        remaining = remaining - count;
        i = i + 1;
    }
    proof {
        assert(bins@.subrange(i as int, bins@.len() as int).len() == 0);
    }
    None
}

/// Why a high-precision histogram could not be made.
#[derive(Clone, Copy, Debug, PartialEq, Eq, Structural)]
pub enum HdrConfigError {
    /// The lowest value must be at least `1`.
    LowIsZero,
    /// The lowest value must be at most `u64::MAX / 2`.
    LowExceedsMax,
    /// The highest value must be at least twice the lowest.
    HighLessThanTwiceLow,
    /// At most 5 significant figures.
    SigFigExceedsMax,
    /// The figures asked for do not fit above the lowest value.
    CannotRepresentSigFigBeyondLow,
    /// The configuration needs more buckets than memory can index.
    UsizeTypeTooSmall,
}

/// The library's name for an error of `new_with_bounds`.
pub open spec fn config_error_of(e: CreationError) -> HdrConfigError {
    match e {
        CreationError::LowIsZero => HdrConfigError::LowIsZero,
        CreationError::LowExceedsMax => HdrConfigError::LowExceedsMax,
        CreationError::HighLessThanTwiceLow => HdrConfigError::HighLessThanTwiceLow,
        CreationError::SigFigExceedsMax => HdrConfigError::SigFigExceedsMax,
        CreationError::CannotRepresentSigFigBeyondLow => HdrConfigError::CannotRepresentSigFigBeyondLow,
        CreationError::UsizeTypeTooSmall => HdrConfigError::UsizeTypeTooSmall,
    }
}

fn config_error(e: CreationError) -> (r: HdrConfigError)
    ensures
        r == config_error_of(e),
{
    match e {
        CreationError::LowIsZero => HdrConfigError::LowIsZero,
        CreationError::LowExceedsMax => HdrConfigError::LowExceedsMax,
        CreationError::HighLessThanTwiceLow => HdrConfigError::HighLessThanTwiceLow,
        CreationError::SigFigExceedsMax => HdrConfigError::SigFigExceedsMax,
        CreationError::CannotRepresentSigFigBeyondLow => HdrConfigError::CannotRepresentSigFigBeyondLow,
        CreationError::UsizeTypeTooSmall => HdrConfigError::UsizeTypeTooSmall,
    }
}

/// A high-precision histogram: samples are kept to a fixed number of
/// significant figures over a fixed range, so its answers have a bounded
/// relative error. Values outside the range are clamped into it.
pub struct HdrHistogram {
    inner: HdrCounts,
    lowest: u64,
    highest: u64,
}

impl HdrHistogram {
    /// How many samples have been recorded since it was made or reset.
    pub closed spec fn recorded(&self) -> nat {
        hdr_count(self.inner)
    }

    /// The bins holding samples, in increasing order: the highest value
    /// equivalent to each, and its count.
    pub closed spec fn bins(&self) -> Seq<(u64, u64)> {
        hdr_bins_of(self.inner)
    }

    /// The least value kept.
    pub closed spec fn lowest(&self) -> u64 {
        self.lowest
    }

    /// The greatest value kept.
    pub closed spec fn highest(&self) -> u64 {
        self.highest
    }

    /// The range is sound and the inner histogram tracks all of it.
    pub closed spec fn wf(&self) -> bool {
        1 <= self.lowest <= self.highest && self.highest <= hdr_highest(self.inner)
    }

    /// A histogram keeping values in `[lowest, highest]` to `sigfig`
    /// significant figures, or why it cannot be made.
    pub fn with_bounds(lowest: u64, highest: u64, sigfig: u8) -> (r: Result<
        HdrHistogram,
        HdrConfigError,
    >)
        ensures
            lowest < 1 ==> r == Err::<HdrHistogram, HdrConfigError>(HdrConfigError::LowIsZero),
            1 <= lowest && lowest > u64::MAX / 2 ==> r == Err::<HdrHistogram, HdrConfigError>(HdrConfigError::LowExceedsMax),
            1 <= lowest <= u64::MAX / 2 && highest < 2 * lowest ==> r == Err::<HdrHistogram, HdrConfigError>(HdrConfigError::HighLessThanTwiceLow),
            1 <= lowest <= u64::MAX / 2 && highest >= 2 * lowest && sigfig > 5 ==> r == Err::<HdrHistogram, HdrConfigError>(HdrConfigError::SigFigExceedsMax),
            valid_config(lowest, highest, sigfig) ==> r is Ok,
            r matches Ok(h) ==> h.wf() && h.recorded() == 0 && h.lowest() == lowest && h.highest()
                == highest,
    {
        match hdr_new(lowest, highest, sigfig) {
            Ok(inner) => {
                assert(1 <= lowest && 2 * lowest <= highest);
                Ok(HdrHistogram { inner, lowest, highest })
            },
            Err(e) => Err(config_error(e)),
        }
    }

    /// A histogram keeping `[1 ns, 1 h]` to 3 significant figures.
    pub fn new() -> (r: Result<HdrHistogram, HdrConfigError>)
        ensures
            r is Ok,
            r matches Ok(h) ==> h.wf() && h.recorded() == 0 && h.lowest() == 1 && h.highest()
                == 3_600_000_000_000,
    {
        proof {
            lemma2_to64();
            lemma2_to64_rest();
            assert(valid_config(1, 3_600_000_000_000, 3));
        }
        HdrHistogram::with_bounds(1, 3_600_000_000_000, 3)
    }

    /// Records `value_ns` clamped to `[lowest, highest]`.
    pub fn record(&mut self, value_ns: u64)
        requires
            old(self).wf(),
        ensures
            final(self).wf(),
            final(self).lowest() == old(self).lowest(),
            final(self).highest() == old(self).highest(),
            final(self).recorded() == old(self).recorded() + 1,
    {
        let v = if value_ns < self.lowest {
            self.lowest
        } else if value_ns > self.highest {
            self.highest
        } else {
            value_ns
        };
        let _ = hdr_record(&mut self.inner, v);
    }

    /// Records a `Duration`, saturated at `u64::MAX` nanoseconds and then
    /// clamped to `[lowest, highest]`.
    pub fn record_duration(&mut self, duration: Duration)
        requires
            old(self).wf(),
        ensures
            final(self).wf(),
            final(self).lowest() == old(self).lowest(),
            final(self).highest() == old(self).highest(),
            final(self).recorded() == old(self).recorded() + 1,
    {
        let nanos = duration.as_nanos();
        let v: u64 = if nanos > u64::MAX as u128 {
            u64::MAX
        } else {
            nanos as u64
        };
        self.record(v);
    }

    /// The number of samples, saturated at `u64::MAX`.
    pub fn count(&self) -> (r: u64)
        ensures
            self.recorded() < u64::MAX ==> r == self.recorded(),
            self.recorded() >= u64::MAX ==> r == u64::MAX,
    {
        hdr_len(&self.inner)
    }

    /// Whether no sample has been recorded.
    pub fn is_empty(&self) -> (r: bool)
        ensures
            r == (self.recorded() == 0),
    {
        hdr_len(&self.inner) == 0
    }

    /// The least sample at the histogram's resolution; `None` when empty.
    pub fn min(&self) -> (r: Option<u64>)
        ensures
            r.is_none() == (self.recorded() == 0),
            r.is_some() && self.bins().len() > 0 ==> r.unwrap() <= self.bins()[0].0,
            0 < self.recorded() < u64::MAX ==> self.bins().len() > 0,
    {
        if hdr_len(&self.inner) == 0 {
            None
        } else {
            Some(hdr_min(&self.inner))
        }
    }

    /// The greatest sample at the histogram's resolution; `None` when empty.
    pub fn max(&self) -> (r: Option<u64>)
        ensures
            r.is_none() == (self.recorded() == 0),
            r.is_some() && self.bins().len() > 0 ==> r.unwrap() == self.bins().last().0,
            0 < self.recorded() < u64::MAX ==> self.bins().len() > 0,
    {
        if hdr_len(&self.inner) == 0 {
            None
        } else {
            Some(hdr_max(&self.inner))
        }
    }

    /// Forgets every sample.
    pub fn reset(&mut self)
        requires
            old(self).wf(),
        ensures
            final(self).wf(),
            final(self).recorded() == 0,
            final(self).lowest() == old(self).lowest(),
            final(self).highest() == old(self).highest(),
    {
        hdr_reset(&mut self.inner);
    }

    /// The `q` percentile at the histogram's resolution: `None` when
    /// empty; at `0` the lowest value equivalent to the least sample; else
    /// the highest value equivalent to the bin where the running count
    /// reaches rank `ceil(q * count)`, the value `value_at_rank_in_bins`
    /// finds in the recorded bins.
    pub fn percentile(&self, q: Quantile) -> (r: Option<u64>)
        requires
            q.wf(),
        ensures
            r.is_none() == (self.recorded() == 0),
            r.is_some() && q@.0 == 0 && self.bins().len() > 0 ==> r.unwrap() <= self.bins()[0].0,
            0 < self.recorded() < u64::MAX && q@.0 > 0 ==> r == bin_at_rank(
                self.bins(),
                hdr_rank(q@, self.recorded()),
            ),
    {
        proof {
            q.lemma_wf();
        }
        let n = hdr_len(&self.inner);
        if n == 0 {
            return None;
        }
        if q.num() == 0 {
            return Some(hdr_min(&self.inner));
        }
        let rank = if q.num() == q.den() {
            n
        } else {
            proof {
                q.lemma_wf();
            }
            rank_target(q, n)
        };
        let bins = hdr_bins(&self.inner);
        proof {
            if n < u64::MAX {
                lemma_bin_at_rank_found(bins@, rank as int);
            }
        }
        match value_at_rank_in_bins(&bins, rank) {
            Some(v) => Some(v),
            None => Some(hdr_max(&self.inner)),
        }
    }

    /// The median at the histogram's resolution.
    pub fn median(&self) -> (r: Option<u64>)
        ensures
            r.is_none() == (self.recorded() == 0),
            0 < self.recorded() < u64::MAX ==> r == bin_at_rank(
                self.bins(),
                hdr_rank((1nat, 2nat), self.recorded()),
            ),
    {
        self.percentile(Quantile::new(1, 2))
    }

    /// Several percentiles; entry `i` is what `percentile` gives for `qs[i]`.
    pub fn percentiles(&self, qs: &[Quantile]) -> (r: Vec<Option<u64>>)
        requires
            forall|i: int| 0 <= i < qs@.len() ==> (#[trigger] qs@[i]).wf(),
        ensures
            r@.len() == qs@.len(),
            forall|i: int|
                0 <= i < qs@.len() ==> (#[trigger] r@[i]).is_none() == (self.recorded() == 0) && (0
                    < self.recorded() < u64::MAX && qs@[i]@.0 > 0 ==> r@[i] == bin_at_rank(
                    self.bins(),
                    hdr_rank(qs@[i]@, self.recorded()),
                )),
    {
        let mut out: Vec<Option<u64>> = Vec::new();
        let mut i: usize = 0;
        while i < qs.len()
            invariant
                i <= qs@.len(),
                forall|j: int| 0 <= j < qs@.len() ==> (#[trigger] qs@[j]).wf(),
                out@.len() == i,
                forall|j: int|
                    0 <= j < i ==> (#[trigger] out@[j]).is_none() == (self.recorded() == 0) && (0
                        < self.recorded() < u64::MAX && qs@[j]@.0 > 0 ==> out@[j] == bin_at_rank(
                        self.bins(),
                        hdr_rank(qs@[j]@, self.recorded()),
                    )),
            decreases qs@.len() - i,
        {
            out.push(self.percentile(qs[i]));
            i = i + 1;
        }
        out
    }

    /// The `q` percentile as a `Duration`.
    pub fn percentile_duration(&self, q: Quantile) -> (r: Option<Duration>)
        requires
            q.wf(),
        ensures
            r.is_none() == (self.recorded() == 0),
    {
        match self.percentile(q) {
            Some(v) => Some(Duration::from_nanos(v as u128)),
            None => None,
        }
    }

    /// The median as a `Duration`.
    pub fn median_duration(&self) -> (r: Option<Duration>)
        ensures
            r.is_none() == (self.recorded() == 0),
    {
        self.percentile_duration(Quantile::new(1, 2))
    }


    /// The recorded bins, in increasing order: for each, the highest value
    /// equivalent to it and its count.
    pub fn recorded_bins(&self) -> (r: Vec<(u64, u64)>)
        ensures
            r@ == self.bins(),
    {
        hdr_bins(&self.inner)
    }
}

} // verus!
