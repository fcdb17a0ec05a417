use std::time::{Duration, Instant, SystemTime};

#[test]
fn instant_is_monotonic_non_decreasing() {
    let a = Instant::now();
    let b = Instant::now();
    assert!(b >= a, "Instant went backwards: {a:?} -> {b:?}");
}

#[test]
fn instant_eventually_advances_within_reasonable_iters() {
    let start = Instant::now();
    let mut last = start;
    let mut advanced = false;

    for _ in 0..1_000_000 {
        let now = Instant::now();
        if now > last {
            advanced = true;
            break;
        }
        last = now;
    }

    assert!(advanced, "Instant did not advance in 1e6 tight iterations");
}

#[test]
fn duration_arithmetic_is_safe_and_consistent() {
    let d1 = Duration::from_nanos(1);
    let d2 = Duration::from_millis(2);

    assert_eq!(d1 + d2, Duration::from_millis(2) + Duration::from_nanos(1));
    assert!(d2 > d1);

    let max = Duration::from_secs(u64::MAX);
    assert!(max.checked_add(Duration::from_secs(1)).is_none());
}

#[test]
fn instant_checked_add_sub_apis() {
    let t0 = Instant::now();
    let ten_ms = Duration::from_millis(10);

    if let Some(t1) = t0.checked_add(ten_ms) {
        assert!(t1 >= t0);
        if let Some(t2) = t1.checked_sub(ten_ms) {
            assert!(t2 <= t1);
        }
    }
}

#[test]
fn system_time_vs_instant_semantics_documented() {
    let _wall = SystemTime::now();
    let _mono = Instant::now();
}
