use std::time::{Duration as StdDuration, Instant};

use benchmark::{measure, measure_named, Timer, Watch, WatchBuilder};

fn spin_for(d: StdDuration) {
    let start = Instant::now();
    while start.elapsed() < d {}
}

#[test]
fn watch_record_and_snapshot() {
    let watch = Watch::new();

    watch.record("op.a", 1_000);
    watch.record("op.a", 2_000);
    watch.record("op.b", 10_000);

    let snap = watch.snapshot();
    let a = snap.get("op.a").expect("op.a present");
    let b = snap.get("op.b").expect("op.b present");

    assert_eq!(a.count, 2);
    assert!(a.min >= 1_000 && a.max >= 2_000);
    assert_eq!(b.count, 1);
    assert!(b.min >= 10_000 && b.max >= 10_000);

    assert!(a.p50 >= a.min && a.p999 <= a.max);
}

#[test]
fn timer_records_on_stop() {
    let watch = Watch::new();
    {
        let t = Timer::new(watch.clone(), "timer.drop");
        spin_for(StdDuration::from_millis(2));
        let ns = t.stop();
        assert!(ns >= 2_000_000);
    }

    let snap = watch.snapshot();
    let s = snap.get("timer.drop").expect("timer.drop present");
    assert_eq!(s.count, 1);
    assert!(s.min >= 2_000_000);
}

#[test]
fn stress_timer_stop_records() {
    let w = Watch::new();
    let total = 200_000usize;
    for _ in 0..total {
        let t = Timer::new(w.clone(), "tick");
        std::hint::black_box(1 + 1);
        t.stop();
    }
    let s = w.snapshot().get("tick").unwrap();
    assert_eq!(s.count as usize, total);
}

#[test]
fn watch_record_many_through_clones() {
    let threads = 8usize;
    let iters = 200_000usize;
    let w = Watch::new();
    for _ in 0..threads {
        let w = w.clone();
        for i in 0..iters {
            if i % 2 == 0 {
                let ns = (i as u64 % 1_000) + 1;
                w.record("hot", ns);
            } else {
                let start = Instant::now();
                std::hint::black_box(i);
                w.record_instant("hot", start);
            }
        }
    }
    let snap = w.snapshot();
    let s = snap.get("hot").unwrap();
    assert_eq!(s.count as usize, threads * iters);
}

#[test]
fn test_basic_timing() {
    let (result, duration) = measure(|| {
        spin_for(StdDuration::from_millis(1));
        42
    });

    assert_eq!(result, 42);
    assert!(duration.as_millis() >= 1);
}

#[test]
fn measure_named_keeps_name_and_result() {
    let (result, m) = measure_named("named_add", || 2 + 2);
    assert_eq!(result, 4);
    assert_eq!(m.name, "named_add");
    assert!(m.timestamp > 0);
}

#[test]
fn watch_builder_sets_bounds() {
    let w = Watch::builder().lowest(10).highest(1_000).build();
    w.record("b", 1);
    w.record("b", 5_000);
    let s = w.snapshot().get("b").unwrap();
    assert_eq!(s.min, 10);
    assert_eq!(s.max, 1_000);

    let w = WatchBuilder::new().lowest(0).highest(0).build();
    w.record("c", 0);
    w.record("c", 100);
    let s = w.snapshot().get("c").unwrap();
    assert_eq!(s.min, 1);
    assert_eq!(s.max, 2);
}

#[test]
fn watch_with_bounds_normalises() {
    let w = Watch::with_bounds(5, 10_000);
    assert_eq!(w.clamp(1), 5);
    assert_eq!(w.clamp(20_000), 10_000);
    assert_eq!(w.clamp(77), 77);
    let w = Watch::with_bounds(u64::MAX, 0);
    assert_eq!(w.clamp(0), u64::MAX);
}

#[test]
fn watch_clear_and_clear_name() {
    let w = Watch::new();
    w.record("a", 1);
    w.record("x", 1);
    assert!(!w.snapshot().is_empty());
    w.clear_name("x");
    let snap = w.snapshot();
    assert!(!snap.contains_key("x"));
    assert!(snap.contains_key("a"));
    w.clear();
    assert!(w.snapshot().is_empty());
}

#[test]
fn watch_clones_share_state() {
    let w = Watch::new();
    let v = w.clone();
    v.record("shared", 42);
    assert_eq!(w.snapshot().get("shared").unwrap().count, 1);
    assert!(w.snapshot().is_empty() == false);
}
