use standby::errors::StandbyError;
use standby::time::Duration;

#[test]
fn new_rejects_a_full_second_of_nanoseconds() {
    match Duration::new(1, 1_000_000_000) {
        Err(StandbyError::InvalidTimeFormat(m)) => assert_eq!(m, "nanoseconds must be 0-999999999"),
        other => panic!("unexpected {:?}", other),
    }
    assert_eq!(Duration::new(1, 999_999_999).unwrap(), Duration { secs: 1, nanos: 999_999_999 });
}

#[test]
fn from_secs_has_no_nanoseconds() {
    assert_eq!(Duration::from_secs(42), Duration { secs: 42, nanos: 0 });
    assert!(!Duration::from_secs(42).is_infinite());
}

#[test]
fn as_millis_drops_sub_millisecond_nanoseconds() {
    assert_eq!(Duration { secs: 2, nanos: 345_678_901 }.as_millis(), 2345);
    assert_eq!(
        Duration { secs: u64::MAX, nanos: 999_999_999 }.as_millis(),
        (u64::MAX as u128) * 1000 + 999
    );
}

#[test]
fn as_nanos_saturates() {
    assert_eq!(Duration { secs: 3, nanos: 7 }.as_nanos(), 3_000_000_007);
    assert_eq!(Duration { secs: 18_446_744_073, nanos: 709_551_615 }.as_nanos(), u64::MAX);
    assert_eq!(Duration { secs: 18_446_744_073, nanos: 709_551_616 }.as_nanos(), u64::MAX);
    assert_eq!(Duration { secs: u64::MAX, nanos: 0 }.as_nanos(), u64::MAX);
}

#[test]
fn to_std_duration_matches_std() {
    assert_eq!(
        Duration { secs: 5, nanos: 500_000_000 }.to_std_duration(),
        std::time::Duration::new(5, 500_000_000)
    );
    assert_eq!(
        Duration { secs: u64::MAX, nanos: 0 }.to_std_duration(),
        std::time::Duration::new(u64::MAX / 2, 999_999_999)
    );
}

#[test]
fn limits_and_reaching_them() {
    let inf = Duration { secs: u64::MAX, nanos: 0 };
    assert_eq!(inf.std_limit(), Duration { secs: u64::MAX / 2, nanos: 999_999_999 });
    let limit = Duration { secs: 1, nanos: 500 };
    assert!(Duration { secs: 1, nanos: 500 }.has_reached(&limit));
    assert!(Duration { secs: 2, nanos: 0 }.has_reached(&limit));
    assert!(!Duration { secs: 1, nanos: 499 }.has_reached(&limit));
}

#[test]
fn from_std_reads_seconds_and_nanoseconds() {
    assert_eq!(
        Duration::from_std(std::time::Duration::new(3, 1_000_000_005)),
        Duration { secs: 4, nanos: 5 }
    );
    let d = Duration { secs: 12, nanos: 34 };
    assert_eq!(Duration::from_std(d.to_std_duration()), d);
}
