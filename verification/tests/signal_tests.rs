use standby::commands::timeout::{parse_signal, signal_from_upper, signal_to_number};
use standby::errors::StandbyError;
use standby::signals::{Signal, SignalHandler};

#[test]
fn signal_names_and_numbers() {
    for (name, sig) in [
        ("TERM", Signal::Term),
        ("15", Signal::Term),
        ("kill", Signal::Kill),
        ("9", Signal::Kill),
        ("Int", Signal::Int),
        ("stop", Signal::Stop),
        ("19", Signal::Stop),
        ("cont", Signal::Cont),
        ("tstp", Signal::Tstp),
        ("hup", Signal::Hup),
        ("1", Signal::Hup),
    ] {
        assert_eq!(parse_signal(name).unwrap(), sig);
    }
}

#[test]
fn unknown_signal_is_refused_with_the_given_name() {
    match parse_signal("usr1") {
        Err(StandbyError::InvalidArgument(m)) => assert_eq!(
            m,
            "Unknown signal: usr1 (supported: TERM, KILL, INT, STOP, CONT, TSTP, HUP)"
        ),
        other => panic!("unexpected {:?}", other),
    }
    // the upper-cased name is matched exactly
    assert!(signal_from_upper("term", "term").is_err());
    assert_eq!(signal_from_upper("TERM", "term").unwrap(), Signal::Term);
}

#[test]
fn upper_casing_goes_by_unicode() {
    // U+0131 (dotless i) upper-cases to I
    assert_eq!(parse_signal("\u{131}nt").unwrap(), Signal::Int);
}

#[test]
fn signal_numbers() {
    assert_eq!(signal_to_number(&Signal::Hup), 1);
    assert_eq!(signal_to_number(&Signal::Int), 2);
    assert_eq!(signal_to_number(&Signal::Kill), 9);
    assert_eq!(signal_to_number(&Signal::Term), 15);
    assert_eq!(signal_to_number(&Signal::Cont), 18);
    assert_eq!(signal_to_number(&Signal::Stop), 19);
    assert_eq!(signal_to_number(&Signal::Tstp), 20);
}

#[test]
fn windows_delivers_only_kill() {
    assert!(SignalHandler::windows_delivery(Signal::Kill).is_ok());
    match SignalHandler::windows_delivery(Signal::Term) {
        Err(StandbyError::SignalError(m)) => assert!(m.starts_with("SIGTERM not available")),
        other => panic!("unexpected {:?}", other),
    }
    match SignalHandler::windows_delivery(Signal::Int) {
        Err(StandbyError::SignalError(m)) => assert!(m.starts_with("SIGINT not available")),
        other => panic!("unexpected {:?}", other),
    }
    for s in [Signal::Stop, Signal::Cont, Signal::Tstp, Signal::Hup] {
        match SignalHandler::windows_delivery(s) {
            Err(StandbyError::SignalError(m)) => {
                assert_eq!(m, "Signal not available on Windows (Unix-only signal)")
            }
            other => panic!("unexpected {:?}", other),
        }
    }
}

#[test]
fn terminate_process_result() {
    assert!(SignalHandler::terminate_outcome(1).is_ok());
    match SignalHandler::terminate_outcome(0) {
        Err(StandbyError::SignalError(m)) => {
            assert_eq!(m, "TerminateProcess failed; process may have already exited")
        }
        other => panic!("unexpected {:?}", other),
    }
}
