use standby::errors::StandbyError;
use standby::time::{parse_duration, Duration};

#[test]
fn law_integer_seconds_example() {
    assert_eq!(parse_duration("86400").unwrap(), Duration::from_secs(86400));
}

#[test]
fn law_number_with_unit_examples() {
    assert_eq!(parse_duration("7s").unwrap(), Duration::from_secs(7));
    assert_eq!(parse_duration("7m").unwrap(), Duration::from_secs(420));
    assert_eq!(parse_duration("7h").unwrap(), Duration::from_secs(25200));
    assert_eq!(parse_duration("7d").unwrap(), Duration::from_secs(604800));
}

#[test]
fn law_hours_minutes_seconds_example() {
    assert_eq!(parse_duration("2h0m5s").unwrap(), Duration::from_secs(7205));
    assert_eq!(parse_duration("1h30m45s").unwrap(), Duration::from_secs(5445));
    match parse_duration("0h0m0s") {
        Err(StandbyError::InvalidTimeFormat(m)) => assert_eq!(m, "No valid time units found"),
        other => panic!("unexpected {:?}", other),
    }
}

#[test]
fn law_surrounding_whitespace_example() {
    assert_eq!(
        parse_duration(" \t1h30m45s\n ").unwrap(),
        parse_duration("1h30m45s").unwrap()
    );
}

#[test]
fn law_parsed_durations_are_well_formed_example() {
    for s in ["1.999999999999", "0.0000000009m", "123.456789123456789h"] {
        assert!(parse_duration(s).unwrap().nanos < 1_000_000_000);
    }
    let d = parse_duration("18446744073709551615.75").unwrap();
    assert!(d.is_infinite());
    assert_eq!(d.nanos, 0);
}

#[test]
fn law_display_then_parse_example() {
    let d = Duration::new(90061, 1).unwrap();
    assert_eq!(d.to_string(), "90061.000000001s");
    assert_eq!(parse_duration(&d.to_string()).unwrap(), d);
}

#[test]
fn law_infinity_any_case_example() {
    for s in ["infinity", "INFINITY", " InFiNiTy\t"] {
        assert_eq!(parse_duration(s).unwrap(), Duration { secs: u64::MAX, nanos: 0 });
    }
}

#[test]
fn law_exponent_example() {
    assert_eq!(parse_duration("15e2").unwrap(), Duration::from_secs(1500));
    assert_eq!(parse_duration("7e0").unwrap(), Duration::from_secs(7));
    assert_eq!(parse_duration("18446744073709551615e0").unwrap(), Duration::from_secs(u64::MAX));
}
