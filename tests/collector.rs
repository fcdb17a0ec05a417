use benchmark::{Collector, Duration, Measurement};

#[test]
fn test_collector_basic() {
    let collector = Collector::new();

    collector.record_duration("test", Duration::from_nanos(1000));
    collector.record_duration("test", Duration::from_nanos(2000));
    collector.record_duration("test", Duration::from_nanos(3000));

    let stats = collector.stats("test").unwrap();
    assert_eq!(stats.count, 3);
    assert_eq!(stats.total.as_nanos(), 6000);
    assert_eq!(stats.min.as_nanos(), 1000);
    assert_eq!(stats.max.as_nanos(), 3000);
    assert_eq!(stats.mean.as_nanos(), 2000);
}

#[test]
fn test_collector_multiple_names() {
    let collector = Collector::new();

    collector.record_duration("foo", Duration::from_nanos(100));
    collector.record_duration("bar", Duration::from_nanos(200));

    assert!(collector.stats("foo").is_some());
    assert!(collector.stats("bar").is_some());
    assert!(collector.stats("baz").is_none());

    let all = collector.all_stats();
    assert_eq!(all.len(), 2);
}

#[test]
fn test_collector_clear() {
    let collector = Collector::new();

    collector.record_duration("test", Duration::from_nanos(1000));
    assert!(collector.stats("test").is_some());

    collector.clear();
    assert!(collector.stats("test").is_none());
}

#[test]
fn miri_collector_record_and_stats() {
    let c = Collector::new();
    for n in 1u128..=10 {
        let m = Measurement {
            name: "miri",
            duration: Duration::from_nanos(n),
            timestamp: 0,
        };
        c.record(&m);
    }
    let s = c.stats("miri").expect("stats present");
    assert_eq!(s.count, 10);
    assert_eq!(s.min.as_nanos(), 1);
    assert_eq!(s.max.as_nanos(), 10);
}

#[test]
fn collector_clones_share_one_store() {
    let c = Collector::with_capacity(4);
    let d = c.clone();
    d.record_duration("shared", Duration::from_nanos(5));
    c.record_duration("shared", Duration::from_nanos(7));
    let s = c.stats("shared").unwrap();
    assert_eq!(s.count, 2);
    assert_eq!(s.total.as_nanos(), 12);
    assert_eq!(s.mean.as_nanos(), 6);
}

#[test]
fn collector_clear_name_keeps_others() {
    let c = Collector::new();
    c.record_duration("a", Duration::from_nanos(1));
    c.record_duration("b", Duration::from_nanos(2));
    c.clear_name("a");
    assert!(c.stats("a").is_none());
    assert_eq!(c.stats("b").unwrap().count, 1);
    let mut all = c.all_stats();
    all.sort_by(|l, r| l.0.cmp(&r.0));
    assert_eq!(all.len(), 1);
    assert_eq!(all[0].0, "b");
}

#[test]
fn collector_total_saturates() {
    let c = Collector::new();
    c.record_duration("big", Duration::from_nanos(u128::MAX));
    c.record_duration("big", Duration::from_nanos(u128::MAX));
    let s = c.stats("big").unwrap();
    assert_eq!(s.total.as_nanos(), u128::MAX);
    assert_eq!(s.mean.as_nanos(), u128::MAX / 2);
}

#[test]
fn collector_stats_do_not_depend_on_order() {
    let values = [5u128, 900, 3, 77, 3, 1_000_000];
    let a = Collector::new();
    let b = Collector::new();
    for v in values {
        a.record_duration("n", Duration::from_nanos(v));
    }
    for v in values.iter().rev() {
        b.record_duration("n", Duration::from_nanos(*v));
    }
    assert_eq!(a.stats("n"), b.stats("n"));
    let s = a.stats("n").unwrap();
    assert_eq!((s.count, s.min.as_nanos(), s.max.as_nanos()), (6, 3, 1_000_000));
}
