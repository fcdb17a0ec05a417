use benchmark::{Duration, Measurement};

#[test]
fn test_duration_conversions() {
    let d = Duration::from_nanos(1_234_567_890);
    assert_eq!(d.as_nanos(), 1_234_567_890);
    assert_eq!(d.as_micros(), 1_234_567);
    assert_eq!(d.as_millis(), 1_234);
    assert!((d.as_nanos() as f64 / 1_000_000_000.0 - 1.234_567_89).abs() < 0.000_000_1);
}

#[test]
fn test_duration_display() {
    assert_eq!(Duration::from_nanos(0).to_string(), "0ns");
    assert_eq!(Duration::from_nanos(123).to_string(), "123ns");
    assert_eq!(Duration::from_nanos(1_500).to_string(), "1.50\u{b5}s");
    assert_eq!(Duration::from_nanos(1_500_000).to_string(), "1.50ms");
    assert_eq!(Duration::from_nanos(1_500_000_000).to_string(), "1.50s");
    assert_eq!(Duration::from_nanos(65_000_000_000).to_string(), "1m 5s");
}

#[test]
fn duration_display_rounds_two_decimals() {
    assert_eq!(Duration::from_nanos(1_005).to_string(), "1.00\u{b5}s");
    assert_eq!(Duration::from_nanos(1_006).to_string(), "1.01\u{b5}s");
    assert_eq!(Duration::from_nanos(999_999).to_string(), "1000.00\u{b5}s");
    assert_eq!(Duration::from_nanos(59_999_999_999).to_string(), "60.00s");
    assert_eq!(Duration::from_nanos(3_725_000_000_000).to_string(), "62m 5s");
    assert_eq!(Duration::zero().to_string(), "0ns");
}

#[test]
fn test_duration_ord() {
    let d1 = Duration::from_nanos(100);
    let d2 = Duration::from_nanos(200);
    let d3 = Duration::from_nanos(100);

    assert!(d1 < d2);
    assert!(d2 > d1);
    assert!(d1 == d3);
}

#[test]
fn miri_duration_arithmetic_sane() {
    let a = Duration::from_nanos(5);
    let b = Duration::from_nanos(7);
    let c = Duration::from_nanos(a.as_nanos() + b.as_nanos());
    assert_eq!(c.as_nanos(), 12);

    let d = Duration::from_nanos(c.as_nanos().saturating_sub(a.as_nanos()));
    assert_eq!(d.as_nanos(), 7);
}

#[test]
fn test_measurement_creation() {
    let m = Measurement::new("test", Duration::from_nanos(1000), 123_456);
    assert_eq!(m.name, "test");
    assert_eq!(m.duration.as_nanos(), 1000);
    assert_eq!(m.timestamp, 123_456);
}

#[test]
fn test_measurement_zero() {
    let m = Measurement::zero("test");
    assert_eq!(m.name, "test");
    assert_eq!(m.duration.as_nanos(), 0);
    assert_eq!(m.timestamp, 0);
}
