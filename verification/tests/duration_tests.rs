use standby::time::Duration;

#[test]
fn test_new_duration() {
    let d = Duration::new(5, 500_000_000).unwrap();
    assert_eq!(d.secs, 5);
    assert_eq!(d.nanos, 500_000_000);
}

#[test]
fn test_new_duration_invalid_nanos() {
    let result = Duration::new(5, 1_000_000_000);
    assert!(result.is_err());
}

#[test]
fn test_is_infinite() {
    let d = Duration {
        secs: u64::MAX,
        nanos: 0,
    };
    assert!(d.is_infinite());
}

#[test]
fn test_display() {
    let d = Duration::new(5, 500_000_000).unwrap();
    assert_eq!(d.to_string(), "5.500000000s");
}
