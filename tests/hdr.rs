use benchmark::{HdrConfigError, HdrHistogram, Quantile};

#[test]
fn hdr_default_histogram_starts_empty() {
    let h = HdrHistogram::new().unwrap();
    assert!(h.is_empty());
    assert_eq!(h.count(), 0);
    assert_eq!(h.min(), None);
    assert_eq!(h.max(), None);
}

#[test]
fn hdr_records_and_clamps_to_bounds() {
    let mut h = HdrHistogram::new().unwrap();
    h.record(0);
    h.record(1_000);
    h.record(5_000_000_000_000);
    assert_eq!(h.count(), 3);
    assert_eq!(h.min(), Some(1));
    let max = h.max().unwrap();
    assert!(max >= 3_600_000_000_000);
    assert!(max <= 3_600_000_000_000 + 3_600_000_000_000 / 1000);
}

#[test]
fn hdr_small_values_are_exact() {
    let mut h = HdrHistogram::new().unwrap();
    for v in [7u64, 3, 1_500] {
        h.record(v);
    }
    assert_eq!(h.min(), Some(3));
    assert_eq!(h.max(), Some(1_500));
}

#[test]
fn hdr_reset_forgets_samples() {
    let mut h = HdrHistogram::with_bounds(1, 1_000_000, 2).unwrap();
    h.record(10);
    assert!(!h.is_empty());
    h.reset();
    assert!(h.is_empty());
    assert_eq!(h.count(), 0);
}

#[test]
fn hdr_bad_configurations_are_refused() {
    assert_eq!(HdrHistogram::with_bounds(0, 100, 3).err(), Some(HdrConfigError::LowIsZero));
    assert_eq!(HdrHistogram::with_bounds(u64::MAX, u64::MAX, 3).err(), Some(HdrConfigError::LowExceedsMax));
    assert_eq!(HdrHistogram::with_bounds(10, 19, 3).err(), Some(HdrConfigError::HighLessThanTwiceLow));
    assert_eq!(HdrHistogram::with_bounds(10, 20, 6).err(), Some(HdrConfigError::SigFigExceedsMax));
    assert!(HdrHistogram::with_bounds(10, 20, 5).is_ok());
}

#[test]
fn hdr_percentiles_at_resolution() {
    let mut h = HdrHistogram::new().unwrap();
    for v in 1..=1000u64 {
        h.record(v);
    }
    assert_eq!(h.percentile(Quantile::new(0, 1)), Some(1));
    assert_eq!(h.median(), Some(500));
    assert_eq!(h.percentile(Quantile::new(99, 100)), Some(990));
    assert_eq!(h.percentile(Quantile::new(1, 1)), Some(1000));
    let empty = HdrHistogram::new().unwrap();
    assert_eq!(empty.percentile(Quantile::new(1, 2)), None);
    let bins = h.recorded_bins();
    assert_eq!(bins.iter().map(|b| b.1).sum::<u64>(), 1000);
}

#[test]
fn hdr_record_duration_clamps() {
    let mut h = HdrHistogram::with_bounds(10, 1_000, 3).unwrap();
    h.record_duration(benchmark::Duration::from_nanos(u128::MAX));
    h.record_duration(benchmark::Duration::from_nanos(3));
    assert_eq!(h.count(), 2);
    // with a lowest value of 10 the resolution unit is 8
    let min = h.min().unwrap();
    assert!((8..=10).contains(&min));
    assert!(h.max().unwrap() >= 1_000);
}

fn fill_and_query<B: benchmark::HistBackend>() -> (u64, Option<u64>, Option<u64>, Option<u64>) {
    let mut h = B::new_backend();
    for v in [10u64, 20, 30, 40] {
        benchmark::HistBackend::record(&mut h, v);
    }
    let q = Quantile::new(1, 2);
    let out = (
        benchmark::HistBackend::count(&h),
        benchmark::HistBackend::min(&h),
        benchmark::HistBackend::max(&h),
        benchmark::HistBackend::percentile(&h, q),
    );
    benchmark::HistBackend::reset(&mut h);
    assert!(benchmark::HistBackend::is_empty(&h));
    out
}

#[test]
fn both_backends_answer_alike_on_small_values() {
    let fast = fill_and_query::<benchmark::FastHistogram>();
    let hdr = fill_and_query::<HdrHistogram>();
    assert_eq!(fast, (4, Some(10), Some(40), Some(20)));
    assert_eq!(fast, hdr);
}

#[test]
fn hdr_batch_percentiles_match_single() {
    let mut h = HdrHistogram::new().unwrap();
    for v in [5u64, 50, 500, 5_000, 50_000] {
        h.record(v);
    }
    let qs = [Quantile::new(0, 1), Quantile::new(1, 2), Quantile::new(1, 1)];
    let batch = h.percentiles(&qs);
    for (i, q) in qs.iter().enumerate() {
        assert_eq!(batch[i], h.percentile(*q));
    }
    assert_eq!(h.median_duration().unwrap().as_nanos(), u128::from(h.median().unwrap()));
    assert_eq!(h.max(), Some(h.recorded_bins().last().unwrap().0));
}
