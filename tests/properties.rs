use benchmark::histogram::Histogram;
use benchmark::{Quantile, Timer, Watch};

fn q(num: i64, den: u64) -> Quantile {
    Quantile::new(num, den)
}

fn filled(values: &[u64]) -> Histogram {
    let mut h = Histogram::new();
    for &v in values {
        h.record(v);
    }
    h
}

#[test]
fn every_percentile_within_min_and_max() {
    let h = filled(&[5, 900, 1_500, 70_000, 3_000_000, 3_000_001, 12]);
    let min = h.min().unwrap();
    let max = h.max().unwrap();
    for num in 0..=100 {
        let p = h.percentile(q(num, 100)).unwrap();
        assert!(min <= p && p <= max);
    }
    assert_eq!(h.percentile(q(0, 1)), Some(min));
    assert_eq!(h.percentile(q(1, 1)), Some(max));
}

#[test]
fn percentiles_do_not_decrease() {
    let h = filled(&[1, 2_000, 2_001, 5_000, 5_000, 65_536, 70_000, 1 << 40, 999]);
    let mut last = 0u64;
    for num in 0..=1000 {
        let p = h.percentile(q(num, 1000)).unwrap();
        assert!(p >= last);
        last = p;
    }
}

#[test]
fn order_of_recording_does_not_matter() {
    let values = [30_000u64, 7, 1_024, 7, 500_000, 2, 1 << 50];
    let mut reversed = values;
    reversed.reverse();
    let a = filled(&values);
    let b = filled(&reversed);
    assert_eq!(a.count(), b.count());
    assert_eq!(a.min(), b.min());
    assert_eq!(a.max(), b.max());
    assert_eq!(a.sum(), b.sum());
    for num in 0..=20 {
        assert_eq!(a.percentile(q(num, 20)), b.percentile(q(num, 20)));
    }
}

#[test]
fn empty_histogram_has_no_statistics() {
    let h = Histogram::new();
    assert_eq!(h.count(), 0);
    assert_eq!(h.min(), None);
    assert_eq!(h.max(), None);
    assert_eq!(h.percentile(q(1, 2)), None);
    assert_eq!(h.percentile_duration(q(1, 2)), None);
}

#[test]
fn single_sample_is_every_percentile() {
    for v in [0u64, 1_023, 1_024, 123_456_789, u64::MAX] {
        let h = filled(&[v]);
        for num in 0..=10 {
            assert_eq!(h.percentile(q(num, 10)), Some(v));
        }
    }
}

#[test]
fn linear_range_values_are_exact_at_their_rank() {
    let values: Vec<u64> = (0..1024).rev().collect();
    let h = filled(&values);
    for rank in 1..=1024u64 {
        assert_eq!(h.percentile(q(rank as i64, 1024)), Some(rank - 1));
    }
}

#[test]
fn median_of_one_to_n_is_near_half() {
    for n in [1u64, 9, 10, 100, 1_000, 2_047, 2_048, 10_000, 100_000, 131_071] {
        let values: Vec<u64> = (1..=n).collect();
        let h = filled(&values);
        let p50 = h.percentile(q(1, 2)).unwrap();
        assert_eq!(p50, (n + 1) / 2, "n={n}");
    }
    let values: Vec<u64> = (1..=1000).collect();
    assert_eq!(filled(&values).percentile(q(1, 2)), Some(500));
}

#[test]
fn interpolation_in_a_power_of_two_bucket() {
    let h = filled(&[4_096, 4_097, 8_000, 8_191]);
    // rank 2 of 4 in bucket [4096, 8192): 4096 + 1 * 4096 / 4
    assert_eq!(h.percentile(q(1, 2)), Some(5_120));
    let h = filled(&[2_000]);
    assert_eq!(h.median(), Some(2_000));
}

#[test]
fn percentile_duration_matches_percentile() {
    let h = filled(&[100, 200, 300]);
    assert_eq!(h.percentile_duration(q(1, 2)).unwrap().as_nanos(), 200);
    assert_eq!(h.median_duration().unwrap().as_nanos(), 200);
}

#[test]
fn quantile_clamps_to_unit_interval() {
    let a = Quantile::new(-5, 10);
    assert_eq!((a.num(), a.den()), (0, 10));
    let b = Quantile::new(15, 10);
    assert_eq!((b.num(), b.den()), (10, 10));
    let c = Quantile::new(3, 10);
    assert_eq!((c.num(), c.den()), (3, 10));
}

#[test]
fn snapshot_scenario_op() {
    let w = Watch::new();
    w.record("op", 1000);
    w.record("op", 2000);
    let snap = w.snapshot();
    let s = snap.get("op").unwrap();
    assert_eq!(s.count, 2);
    assert_eq!(s.min, 1000);
    assert_eq!(s.max, 2000);
    assert_eq!(s.sum, 3000);
    assert_eq!(s.mean_ns(), 1500);
    assert_eq!(s.p50, 1000);
    // rank 2 of 2 falls alone in the bucket [1024, 2048): its start
    assert_eq!(s.p999, 1024);
}

#[test]
fn snapshot_clamps_above_one_hour() {
    let w = Watch::new();
    w.record("big", 5_000_000_000_000);
    let s = w.snapshot().get("big").unwrap();
    assert_eq!(s.min, 3_600_000_000_000);
    assert_eq!(s.max, 3_600_000_000_000);
}

#[test]
fn out_of_range_quantiles_match_the_ends() {
    let h = filled(&[10, 20, 30]);
    assert_eq!(h.percentile(q(-1, 2)), h.percentile(q(0, 1)));
    assert_eq!(h.percentile(q(3, 2)), h.percentile(q(1, 1)));
    assert_eq!(h.percentile(q(-1, 2)), Some(10));
    assert_eq!(h.percentile(q(3, 2)), Some(30));
}

#[test]
fn timer_records_once_when_stopped() {
    let w = Watch::new();
    let t = Timer::new(w.clone(), "once");
    let _ns = t.stop();
    assert_eq!(w.snapshot().get("once").unwrap().count, 1);
}

#[test]
fn timer_finish_twice_records_once() {
    let w = Watch::new();
    let mut t = Timer::new(w.clone(), "twice");
    assert!(t.finish().is_some());
    assert!(t.finish().is_none());
    assert_eq!(t.stop(), 0);
    assert_eq!(w.snapshot().get("twice").unwrap().count, 1);
}

#[test]
fn snapshot_has_one_entry_per_name() {
    let w = Watch::new();
    w.record("a", 1);
    w.record("b", 2);
    w.record("a", 3);
    let snap = w.snapshot();
    assert_eq!(snap.len(), 2);
    assert_eq!(snap.get("a").unwrap().count, 2);
    assert!(snap.contains_key("b"));
    assert!(snap.get("c").is_none());
}

#[test]
fn empty_metric_shows_zero_statistics() {
    let h = Histogram::new();
    let s = benchmark::WatchStats::of(&h);
    assert_eq!(s.count, 0);
    assert_eq!((s.min, s.max, s.p50, s.p99, s.sum), (0, 0, 0, 0, 0));
    assert_eq!(s.mean_ns(), 0);
}

#[test]
fn record_duration_saturates_at_u64_max() {
    let mut h = Histogram::new();
    h.record_duration(benchmark::Duration::from_nanos(u128::MAX));
    assert_eq!(h.max(), Some(u64::MAX));
}

#[test]
fn mean_between_min_and_max() {
    let h = filled(&[3, 1_000, 70_000, 5]);
    let n = h.count();
    assert!(h.min().unwrap() * n <= h.sum());
    assert!(h.sum() <= h.max().unwrap() * n);
    assert_eq!(h.sum(), 71_008);
}

#[test]
fn snapshot_statistics_are_ordered() {
    let w = Watch::new();
    for v in [5u64, 17, 900, 1_500, 40_000, 40_001, 2_000_000, 9] {
        w.record("mix", v);
    }
    let s = w.snapshot().get("mix").unwrap();
    assert!(s.min <= s.p50 && s.p50 <= s.p90 && s.p90 <= s.p95);
    assert!(s.p95 <= s.p99 && s.p99 <= s.p999 && s.p999 <= s.max);
    assert_eq!((s.min, s.max, s.count), (5, 2_000_000, 8));
}
