use standby::time::parse_duration;

#[test]
fn test_parse_integer_seconds() {
    let d = parse_duration("5").unwrap();
    assert_eq!(d.secs, 5);
    assert_eq!(d.nanos, 0);
}

#[test]
fn test_parse_float_seconds() {
    let d = parse_duration("5.5").unwrap();
    assert_eq!(d.secs, 5);
    assert_eq!(d.nanos, 500_000_000);
}

#[test]
fn test_parse_seconds_with_suffix() {
    let d = parse_duration("5s").unwrap();
    assert_eq!(d.secs, 5);
}

#[test]
fn test_parse_minutes() {
    let d = parse_duration("1m").unwrap();
    assert_eq!(d.secs, 60);
}

#[test]
fn test_parse_minutes_float() {
    let d = parse_duration("1.5m").unwrap();
    assert_eq!(d.secs, 90);
}

#[test]
fn test_parse_hours() {
    let d = parse_duration("1h").unwrap();
    assert_eq!(d.secs, 3600);
}

#[test]
fn test_parse_days() {
    let d = parse_duration("1d").unwrap();
    assert_eq!(d.secs, 86400);
}

#[test]
fn test_parse_infinity() {
    let d = parse_duration("infinity").unwrap();
    assert!(d.is_infinite());
}

#[test]
fn test_parse_infinity_case_insensitive() {
    let d = parse_duration("INFINITY").unwrap();
    assert!(d.is_infinite());
}

#[test]
fn test_parse_compound_duration() {
    let d = parse_duration("1m30s").unwrap();
    assert_eq!(d.secs, 90);
}

#[test]
fn test_parse_complex_compound() {
    let d = parse_duration("1h30m45s").unwrap();
    assert_eq!(d.secs, 5445);
}

#[test]
fn test_invalid_duration() {
    assert!(parse_duration("invalid").is_err());
}

#[test]
fn test_invalid_unit() {
    assert!(parse_duration("5x").is_err());
}
