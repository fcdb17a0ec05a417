use benchmark::histogram::Histogram;
use benchmark::{Duration, Quantile};

fn q(num: i64, den: u64) -> Quantile {
    Quantile::new(num, den)
}

#[test]
fn test_empty_histogram() {
    let hist = Histogram::new();
    assert!(hist.is_empty());
    assert_eq!(hist.count(), 0);
    assert_eq!(hist.min(), None);
    assert_eq!(hist.max(), None);
    assert_eq!(hist.sum(), 0);
    assert_eq!(hist.percentile(q(1, 2)), None);
    assert_eq!(hist.median(), None);
}

#[test]
fn test_basic_statistics() {
    let mut hist = Histogram::new();

    hist.record(100);
    hist.record(200);
    hist.record(300);

    assert!(!hist.is_empty());
    assert_eq!(hist.count(), 3);
    assert_eq!(hist.min(), Some(100));
    assert_eq!(hist.max(), Some(300));
    assert_eq!(hist.sum() as f64 / hist.count() as f64, 200.0);
    assert_eq!(hist.median(), Some(200));
}

#[test]
fn test_percentiles() {
    let mut hist = Histogram::new();

    for i in 1..=100 {
        hist.record(i);
    }

    assert_eq!(hist.percentile(q(0, 1)), Some(1));
    assert_eq!(hist.percentile(q(1, 2)), Some(50));
    assert_eq!(hist.percentile(q(99, 100)), Some(99));
    assert_eq!(hist.percentile(q(1, 1)), Some(100));

    assert_eq!(hist.percentile(q(-1, 10)), Some(1));
    assert_eq!(hist.percentile(q(11, 10)), Some(100));
}

#[test]
fn test_multiple_percentiles() {
    let mut hist = Histogram::new();

    for i in 1..=1000 {
        hist.record(i);
    }

    let percentiles = hist.percentiles(&[
        q(0, 1),
        q(25, 100),
        q(50, 100),
        q(75, 100),
        q(95, 100),
        q(99, 100),
        q(1, 1),
    ]);

    assert_eq!(percentiles[0], Some(1));
    assert_eq!(percentiles[1], Some(250));
    assert_eq!(percentiles[2], Some(500));
    assert_eq!(percentiles[3], Some(750));
    assert_eq!(percentiles[4], Some(950));
    assert_eq!(percentiles[5], Some(990));
    assert_eq!(percentiles[6], Some(1000));
}

#[test]
fn test_large_values() {
    let mut hist = Histogram::new();

    hist.record(1_000_000);
    hist.record(1_000_000_000);
    hist.record(500);

    assert_eq!(hist.min(), Some(500));
    assert_eq!(hist.max(), Some(1_000_000_000));
    assert_eq!(hist.count(), 3);
}

#[test]
fn test_duration_api() {
    let mut hist = Histogram::new();

    hist.record_duration(Duration::from_nanos(100));
    hist.record_duration(Duration::from_nanos(1_000));
    hist.record_duration(Duration::from_nanos(1_000_000));

    assert_eq!(hist.count(), 3);
    assert_eq!(hist.min(), Some(100));
    assert_eq!(hist.max(), Some(1_000_000));

    let median_duration = hist.median_duration().unwrap();
    assert_eq!(median_duration, Duration::from_nanos(1000));
}

#[test]
fn test_reset() {
    let mut hist = Histogram::new();

    hist.record(100);
    hist.record(200);
    assert_eq!(hist.count(), 2);

    hist.reset();
    assert!(hist.is_empty());
    assert_eq!(hist.count(), 0);
    assert_eq!(hist.min(), None);
    assert_eq!(hist.max(), None);
}

#[test]
fn test_overflow_protection() {
    let mut hist = Histogram::new();

    hist.record(u64::MAX);
    hist.record(u64::MAX - 1);

    assert_eq!(hist.count(), 2);
    assert_eq!(hist.max(), Some(u64::MAX));

    assert_eq!(hist.sum(), u64::MAX);
    let mean = hist.sum() as f64 / hist.count() as f64;
    assert!(mean > 0.0);
}

#[test]
fn test_precision_linear_buckets() {
    let mut hist = Histogram::new();

    for i in 0u32..1024 {
        hist.record(u64::from(i));
    }

    for i in 0u32..1024 {
        let value = hist.percentile(q(i64::from(i), 1023)).unwrap();
        assert!(value <= u64::from(i), "Value {value} should be <= {i}");
    }
}

#[test]
fn test_logarithmic_buckets() {
    let mut hist = Histogram::new();

    let large_values = vec![2_000, 10_000, 100_000, 1_000_000, 10_000_000];

    for &value in &large_values {
        hist.record(value);
    }

    assert_eq!(hist.count(), 5);
    assert_eq!(hist.min(), Some(2_000));
    assert_eq!(hist.max(), Some(10_000_000));

    let median = hist.median().unwrap();
    assert!((50_000..=150_000).contains(&median));
}

#[test]
fn test_edge_cases() {
    let mut hist = Histogram::new();

    hist.record(0);
    assert_eq!(hist.min(), Some(0));
    assert_eq!(hist.max(), Some(0));
    assert_eq!(hist.median(), Some(0));

    hist.reset();

    hist.record(42);
    assert_eq!(hist.count(), 1);
    assert_eq!(hist.percentile(q(0, 1)), Some(42));
    assert_eq!(hist.percentile(q(1, 2)), Some(42));
    assert_eq!(hist.percentile(q(1, 1)), Some(42));
}

#[test]
fn record_ten_thousand_values() {
    let mut hist = Histogram::new();
    for thread_id in 0..10 {
        for i in 0..1000 {
            hist.record(thread_id * 1000 + i);
        }
    }
    assert_eq!(hist.count(), 10_000);
    assert_eq!(hist.min(), Some(0));
    assert_eq!(hist.max(), Some(9_999));
}

#[test]
fn median_of_ten_thousand_values() {
    let mut hist = Histogram::new();
    for i in 1..=10000 {
        hist.record(i);
    }
    assert_eq!(hist.count(), 10_000);
    assert_eq!(hist.min(), Some(1));
    assert_eq!(hist.max(), Some(10_000));
    assert_eq!(hist.median(), Some(5_000));
}

#[test]
fn test_memory_efficiency() {
    let mut hist = Histogram::new();

    for i in 0..1_000_000 {
        hist.record(i);
    }

    assert_eq!(hist.count(), 1_000_000);
    assert_eq!(hist.min(), Some(0));
    assert_eq!(hist.max(), Some(999_999));
    let median = hist.median().unwrap();
    assert!((400_000..=600_000).contains(&median));
}

#[test]
fn miri_histogram_basic_percentiles() {
    let mut h = Histogram::default();
    for v in [1u64, 2, 3, 4, 5, 6, 7, 8, 9, 10] {
        h.record(v);
    }
    assert_eq!(h.count(), 10);

    let min = h.min().unwrap();
    let max = h.max().unwrap();
    let p0 = h.percentile(q(0, 1)).unwrap();
    let p50 = h.percentile(q(1, 2)).unwrap();
    let p100 = h.percentile(q(1, 1)).unwrap();

    assert!(min <= p50 && p50 <= max);
    assert_eq!(p0, min);
    assert_eq!(p100, max);
}
