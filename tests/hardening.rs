use benchmark::histogram::Histogram;
use benchmark::{Collector, Duration, Quantile, Watch};

fn q(num: i64, den: u64) -> Quantile {
    Quantile::new(num, den)
}

#[test]
fn histogram_empty_returns_none() {
    let h = Histogram::default();
    assert_eq!(h.count(), 0);
    assert!(h.min().is_none());
    assert!(h.max().is_none());
    assert!(h.is_empty());
    assert!(h.percentile(q(0, 1)).is_none());
    assert!(matches!(
        h.percentiles(&[q(0, 1), q(1, 2), q(1, 1)]).as_slice(),
        [None, None, None]
    ));
}

#[test]
fn histogram_single_value_all_percentiles_equal() {
    let mut h = Histogram::default();
    h.record(123);
    assert_eq!(h.count(), 1);
    let v = 123u64;
    assert_eq!(h.min(), Some(v));
    assert_eq!(h.max(), Some(v));
    assert_eq!(h.percentile(q(0, 1)), Some(v));
    assert_eq!(h.percentile(q(1, 2)), Some(v));
    assert_eq!(h.percentile(q(1, 1)), Some(v));
    let ps = h.percentiles(&[q(0, 1), q(25, 100), q(50, 100), q(75, 100), q(1, 1)]);
    for p in ps {
        assert_eq!(p, Some(v));
    }
}

#[test]
fn histogram_out_of_range_percentiles_clamp_to_bounds() {
    let mut h = Histogram::default();
    for v in [1u64, 100, 10_000] {
        h.record(v);
    }
    let min = h.min().unwrap();
    let max = h.max().unwrap();

    let p_neg = h.percentile(q(-25, 100));
    let p_big = h.percentile(q(7, 1));
    assert_eq!(p_neg, Some(min));
    assert_eq!(p_big, Some(max));

    let ps = h.percentiles(&[q(-1, 1), q(0, 1), q(1, 2), q(1, 1), q(2, 1)]);
    assert_eq!(ps[0], Some(min));
    assert_eq!(ps[1], Some(min));
    assert!(ps[2].unwrap() >= min && ps[2].unwrap() <= max);
    assert_eq!(ps[3], Some(max));
    assert_eq!(ps[4], Some(max));
}

#[test]
fn histogram_handles_large_values_and_duplicates() {
    let mut h = Histogram::default();
    let large = u64::MAX - 1;
    for _ in 0..10 {
        h.record(large);
    }
    h.record(u64::MAX);
    assert_eq!(h.count(), 11);
    assert_eq!(h.min().unwrap(), large);
    assert_eq!(h.max().unwrap(), u64::MAX);
    let p99 = h.percentile(q(99, 100)).unwrap();
    assert!(p99 >= large);
}

#[test]
fn collector_stats_none_for_missing_key_and_counts_zero_duration() {
    let c = Collector::new();
    assert!(c.stats("missing").is_none());

    c.record_duration("zero", Duration::from_nanos(0));
    let s = c.stats("zero").unwrap();
    assert_eq!(s.count, 1);
    assert_eq!(s.min.as_nanos(), 0);
    assert_eq!(s.max.as_nanos(), 0);
}

#[test]
fn watch_records_extreme_values() {
    let w = Watch::new();
    w.record("x", 0);
    w.record("x", 1);
    w.record("x", u64::MAX);
    let s = w.snapshot().get("x").unwrap();
    assert_eq!(s.min, 1);
    assert_eq!(s.max, 3_600_000_000_000);
}
