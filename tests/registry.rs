use benchmark::{Duration, DurationStore, Registry};

#[test]
fn registry_scenario_op() {
    let mut r = Registry::new();
    r.record("op", 1000);
    r.record("op", 2000);
    let snap = r.snapshot();
    let s = snap.get("op").unwrap();
    assert_eq!((s.count, s.min, s.max), (2, 1000, 2000));
}

#[test]
fn registry_clamps_and_keeps_names_apart() {
    let mut r = Registry::with_bounds(1, 3_600_000_000_000);
    r.record("x", 0);
    r.record("x", 1);
    r.record("x", u64::MAX);
    r.record("y", 5_000_000_000_000);
    let snap = r.snapshot();
    let x = snap.get("x").unwrap();
    assert_eq!((x.count, x.min, x.max), (3, 1, 3_600_000_000_000));
    let y = snap.get("y").unwrap();
    assert_eq!((y.count, y.min), (1, 3_600_000_000_000));
    assert_eq!(snap.len(), 2);
}

#[test]
fn registry_clear_and_clear_name() {
    let mut r = Registry::new();
    assert!(r.snapshot().is_empty());
    r.record("a", 5);
    r.record("b", 6);
    r.clear_name("a");
    r.clear_name("missing");
    let snap = r.snapshot();
    assert!(!snap.contains_key("a"));
    assert_eq!(snap.get("b").unwrap().count, 1);
    r.clear();
    assert!(r.snapshot().is_empty());
    r.record("b", 7);
    assert_eq!(r.snapshot().get("b").unwrap().count, 1);
}

#[test]
fn store_appends_and_summarizes() {
    let mut s = DurationStore::new();
    assert!(s.stats("n").is_none());
    for v in [30u128, 10, 20] {
        s.record_duration("n", Duration::from_nanos(v));
    }
    s.record_duration("m", Duration::from_nanos(1));
    let st = s.stats("n").unwrap();
    assert_eq!((st.count, st.total.as_nanos(), st.min.as_nanos(), st.max.as_nanos(), st.mean.as_nanos()), (3, 60, 10, 30, 20));
    let mut all = s.all_stats();
    all.sort_by(|a, b| a.0.cmp(&b.0));
    assert_eq!(all.len(), 2);
    assert_eq!(all[0].0, "m");
    s.clear_name("m");
    assert!(s.stats("m").is_none());
    s.clear();
    assert!(s.all_stats().is_empty());
}

#[test]
fn timer_finish_in_records_once() {
    let w = benchmark::Watch::new();
    let mut reg = Registry::new();
    let mut t = benchmark::Timer::new(w, "t");
    let ns = t.finish_in(&mut reg).unwrap();
    assert!(t.finish_in(&mut reg).is_none());
    let snap = reg.snapshot();
    let s = snap.get("t").unwrap();
    assert_eq!(s.count, 1);
    assert_eq!(s.min, ns.clamp(1, 3_600_000_000_000));
}

#[test]
fn registry_record_instant_returns_recorded_value() {
    let mut reg = Registry::with_bounds(1, u64::MAX);
    let start = std::time::Instant::now();
    let ns = reg.record_instant("i", start);
    let snap = reg.snapshot();
    assert_eq!(snap.get("i").unwrap().max, ns.max(1));
}
