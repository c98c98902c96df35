use standby::errors::StandbyError;
use standby::time::parser::{parse_fails_exec, read_duration};
use standby::time::{parse_duration, Duration};

fn secs_nanos(s: &str) -> (u64, u32) {
    let d = parse_duration(s).unwrap();
    (d.secs, d.nanos)
}

fn format_error(s: &str) -> String {
    match parse_duration(s) {
        Err(StandbyError::InvalidTimeFormat(m)) => m,
        other => panic!("expected a format error for {:?}, got {:?}", s, other),
    }
}

#[test]
fn surrounding_whitespace_is_ignored() {
    assert_eq!(secs_nanos("  5s \t\n"), (5, 0));
    assert_eq!(secs_nanos("\u{3000}7\u{00a0}"), (7, 0));
}

#[test]
fn space_between_number_and_unit() {
    assert_eq!(secs_nanos("5 s"), (5, 0));
    assert_eq!(secs_nanos("2 h"), (7200, 0));
}

#[test]
fn decimals_are_exact_to_the_nanosecond() {
    assert_eq!(secs_nanos("2.3"), (2, 300_000_000));
    assert_eq!(secs_nanos(".5"), (0, 500_000_000));
    assert_eq!(secs_nanos("5."), (5, 0));
    assert_eq!(secs_nanos("0.0000000019"), (0, 1));
    assert_eq!(secs_nanos("0.5m"), (30, 0));
    assert_eq!(secs_nanos("0.0000000001m"), (0, 6));
}

#[test]
fn signs_and_special_words() {
    assert_eq!(secs_nanos("+5"), (5, 0));
    assert_eq!(secs_nanos("-0"), (0, 0));
    assert!(parse_duration("inf").unwrap().is_infinite());
    assert!(parse_duration("-Infinity").unwrap().is_infinite());
    assert_eq!(format_error("-5"), "duration must be non-negative and finite");
    assert_eq!(format_error("NaN"), "duration must be non-negative and finite");
}

#[test]
fn largest_durations() {
    assert_eq!(secs_nanos("18446744073709551615"), (u64::MAX, 0));
    // f64 rounds 2^64 - 1024 up to 2^64 .. 2^64 + 2048 down to 2^64: infinite
    assert_eq!(secs_nanos("18446744073709551616"), (u64::MAX, 0));
    assert_eq!(secs_nanos("18446744073709551000"), (u64::MAX, 0));
    assert_eq!(secs_nanos("18446744073709550592"), (u64::MAX, 0));
    assert_eq!(secs_nanos("18446744073709553664"), (u64::MAX, 0));
    assert_eq!(secs_nanos("18446744073709550591"), (18446744073709550591, 0));
    assert_eq!(format_error("18446744073709553664.5"), "nanoseconds must be 0-999999999");
    assert_eq!(format_error("18446744073709553665"), "nanoseconds must be 0-999999999");
    assert_eq!(
        format_error("99999999999999999999999999999999999999999999d"),
        "nanoseconds must be 0-999999999"
    );
    assert_eq!(
        format_error("-99999999999999999999999999999999999999999999"),
        "duration must be non-negative and finite"
    );
}

#[test]
fn the_last_seconds_read_as_infinity() {
    assert_eq!(secs_nanos("18446744073709551615.5"), (u64::MAX, 0));
    assert_eq!(secs_nanos("18446744073709551615.999999999"), (u64::MAX, 0));
    assert_eq!(secs_nanos("307445734561825860.25m"), (u64::MAX, 0));
    assert_eq!(secs_nanos("18446744073709551614.5"), (u64::MAX, 0));
    assert_eq!(secs_nanos("18446744073709551616.5"), (u64::MAX, 0));
    assert_eq!(secs_nanos("18446744073709550591.5"), (18446744073709550591, 500_000_000));
}

#[test]
fn beyond_the_range_of_f64_is_infinity() {
    // 2^1024 - 2^970 is the least number that f64 rounds to infinity
    let limit = "179769313486231580793728971405303415079934132710037826936173778980444968292764750946649017977587207096330286416692887910946555547851940402630657488671505820681908902000708383676273854845817711531764475730270069855571366959622842914819860834936475292719074168444365510704342711559699508093042880177904174497792";
    let below = "179769313486231580793728971405303415079934132710037826936173778980444968292764750946649017977587207096330286416692887910946555547851940402630657488671505820681908902000708383676273854845817711531764475730270069855571366959622842914819860834936475292719074168444365510704342711559699508093042880177904174497791";
    assert_eq!(secs_nanos(limit), (u64::MAX, 0));
    assert_eq!(secs_nanos(&format!("{}.5", limit)), (u64::MAX, 0));
    assert_eq!(secs_nanos(&format!("-{}", limit)), (u64::MAX, 0));
    assert_eq!(format_error(below), "nanoseconds must be 0-999999999");
    assert_eq!(format_error(&format!("{}.999", below)), "nanoseconds must be 0-999999999");
    assert_eq!(format_error(&format!("-{}", below)), "duration must be non-negative and finite");
    // with leading zeros
    assert_eq!(secs_nanos(&format!("000{}", limit)), (u64::MAX, 0));
    // 2 * 10^308 seconds, and 4 * 10^306 minutes, are beyond; 10^308 seconds and
    // 2 * 10^306 minutes are not
    let zeros = |n: usize| "0".repeat(n);
    assert_eq!(secs_nanos(&format!("2{}", zeros(308))), (u64::MAX, 0));
    assert_eq!(format_error(&format!("1{}", zeros(308))), "nanoseconds must be 0-999999999");
    assert_eq!(secs_nanos(&format!("4{}m", zeros(306))), (u64::MAX, 0));
    assert_eq!(format_error(&format!("2{}m", zeros(306))), "nanoseconds must be 0-999999999");
    assert_eq!(secs_nanos(&format!("3{}d", zeros(303))), (u64::MAX, 0));
    assert_eq!(format_error(&format!("2{}d", zeros(303))), "nanoseconds must be 0-999999999");
    // in a compound duration, an infinite term makes the total infinite, and
    // infinities of both signs make no number
    assert_eq!(secs_nanos(&format!("1h2{}m", zeros(308))), (u64::MAX, 0));
    assert_eq!(
        format_error(&format!("-2{}h2{}m", zeros(308), zeros(308))),
        "duration must be non-negative and finite"
    );
}

#[test]
fn exponent_notation() {
    assert_eq!(secs_nanos("1e3"), (1000, 0));
    assert_eq!(secs_nanos("1E3"), (1000, 0));
    assert_eq!(secs_nanos("+1e+2"), (100, 0));
    assert_eq!(secs_nanos("1.5e2"), (150, 0));
    assert_eq!(secs_nanos(".5e1"), (5, 0));
    assert_eq!(secs_nanos("2.5e-1"), (0, 250_000_000));
    assert_eq!(secs_nanos("123456789e-9"), (0, 123_456_789));
    assert_eq!(secs_nanos("1e-18"), (0, 0));
    assert_eq!(secs_nanos("1e-400"), (0, 0));
    assert_eq!(secs_nanos("0e99999999999999999999999999999999999999"), (0, 0));
    assert_eq!(secs_nanos("1.8446744073709551615e19"), (u64::MAX, 0));
    assert_eq!(secs_nanos("1e400"), (u64::MAX, 0));
    assert_eq!(secs_nanos("1e99999999999999999999999999999999999999"), (u64::MAX, 0));
    assert_eq!(secs_nanos("-1e400"), (u64::MAX, 0));
    assert_eq!(secs_nanos("1e-99999999999999999999999999999999999999"), (0, 0));
    assert_eq!(format_error("1e20"), "nanoseconds must be 0-999999999");
    assert_eq!(format_error("-1e3"), "duration must be non-negative and finite");
    // not numbers: the letter is then read as a unit
    assert_eq!(format_error("1e"), "Unknown time unit: e");
    assert_eq!(format_error("e5"), "Missing number in: e5");
    // in a compound duration, the first number may carry an exponent
    assert_eq!(secs_nanos("1e2h30m"), (361_800, 0));
}

#[test]
fn compound_durations() {
    assert_eq!(secs_nanos("1d2h3m4s"), (93784, 0));
    assert_eq!(secs_nanos("1h 30m"), (5400, 0));
    assert_eq!(secs_nanos("1.5h30m"), (7200, 0));
    assert_eq!(secs_nanos("1hm"), (3600, 0));
    // "ms" holds both "m" and "s": read as a compound, the number counts as minutes
    assert_eq!(secs_nanos("5ms"), (300, 0));
    // a sign is read only while the total is still zero
    assert_eq!(secs_nanos("-1h61m"), (60, 0));
    assert!(parse_duration("infh5m").unwrap().is_infinite());
}

#[test]
fn error_messages() {
    assert_eq!(format_error("invalid"), "Missing number in: invalid");
    assert_eq!(format_error("5x"), "Unknown time unit: x");
    assert_eq!(format_error("1.2.3s"), "Invalid number: 1.2.3");
    assert_eq!(format_error("0h0m"), "No valid time units found");
    assert_eq!(format_error("x1h5m"), "Invalid number in compound duration: x1");
    assert_eq!(format_error(""), "Missing number in: ");
    assert_eq!(format_error("1e3x"), "Unknown time unit: e3x");
}

#[test]
fn display_forms() {
    assert_eq!(Duration::from_secs(7).to_string(), "7s");
    assert_eq!(Duration::new(0, 5).unwrap().to_string(), "0.000000005s");
    assert_eq!(Duration::from_secs(u64::MAX).to_string(), "infinity");
}

#[test]
fn display_then_parse_gives_back_the_duration() {
    for d in [
        Duration::new(5, 500_000_000).unwrap(),
        Duration::new(0, 1).unwrap(),
        Duration::new(123456789, 999_999_999).unwrap(),
        Duration::from_secs(0),
        Duration::from_secs(18446744073709550591),
        Duration::from_secs(u64::MAX),
    ] {
        assert_eq!(parse_duration(&d.to_string()).unwrap(), d);
    }
}

#[test]
fn non_ascii_numerals_belong_to_the_number() {
    // U+0663 (Arabic-Indic three) is numeric and takes two bytes: the count of
    // number characters, 2, taken as a byte offset, cuts after the first one
    assert_eq!(format_error("\u{663}\u{663}s"), "Invalid number: \u{663}");
    assert_eq!(format_error("\u{bd}\u{bd}s"), "Invalid number: \u{bd}");
    // U+00E9 is not numeric: it starts the unit
    assert_eq!(format_error("5\u{e9}"), "Unknown time unit: \u{e9}");
}

#[test]
fn texts_that_cannot_be_cut() {
    // the offset 2 falls inside U+00BD (bytes 1 to 3)
    assert!(parse_fails_exec("5\u{bd}s"));
    assert!(read_duration("5\u{bd}s").is_none());
    assert!(parse_fails_exec("\u{663}s"));
    // a number alone, a compound duration, or ASCII, is always cut cleanly
    assert!(!parse_fails_exec("5\u{bd}"));
    assert!(!parse_fails_exec("1h\u{bd}30m"));
    assert!(!parse_fails_exec("5s"));
    assert!(!parse_fails_exec("infinity"));
    assert_eq!(read_duration(" 5s ").unwrap().unwrap(), Duration::from_secs(5));
}

#[test]
fn infinity_in_any_case_with_whitespace() {
    assert!(parse_duration("  InFiNiTy ").unwrap().is_infinite());
}
