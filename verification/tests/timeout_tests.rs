use standby::commands::timeout::{
    escalation, execute, step, try_escalation, ChildStatus, TimeoutAction, TimeoutArgs, TimeoutPhase,
    TimeoutPolicy,
};
use standby::errors::StandbyError;
use standby::signals::Signal;
use standby::time::Duration;

fn args(duration: &str, signal: &str, kill_after: Option<&str>, preserve: bool) -> TimeoutArgs {
    TimeoutArgs {
        duration: duration.to_string(),
        command: "sleep".to_string(),
        args: vec!["10".to_string()],
        signal: signal.to_string(),
        kill_after: kill_after.map(|k| k.to_string()),
        preserve_status: preserve,
        foreground: false,
        verbose: false,
    }
}

fn policy(kill_after: Option<Duration>, preserve: bool) -> TimeoutPolicy {
    TimeoutPolicy {
        limit: Duration::from_secs(1),
        signal: Signal::Term,
        kill_after,
        preserve_status: preserve,
    }
}

#[test]
fn time_limit_of_the_arguments() {
    assert_eq!(execute(&args("1.5", "TERM", None, false)).unwrap(), Duration::new(1, 500_000_000).unwrap());
    assert_eq!(
        execute(&args("infinity", "TERM", None, false)).unwrap(),
        Duration { secs: u64::MAX / 2, nanos: 999_999_999 }
    );
    assert!(execute(&args("soon", "TERM", None, false)).is_err());
}

#[test]
fn escalation_reads_signal_and_grace_period() {
    let limit = Duration::from_secs(1);
    let p = escalation(&args("1", "kill", Some("2s"), true), limit).unwrap();
    assert_eq!(p.signal, Signal::Kill);
    assert_eq!(p.kill_after, Some(Duration::from_secs(2)));
    assert!(p.preserve_status);
    assert_eq!(p.limit, limit);
    let p = escalation(&args("1", "TERM", None, false), limit).unwrap();
    assert_eq!(p.kill_after, None);
    assert!(matches!(
        escalation(&args("1", "BOGUS", None, false), limit),
        Err(StandbyError::InvalidArgument(_))
    ));
    assert!(matches!(
        escalation(&args("1", "TERM", Some("later"), false), limit),
        Err(StandbyError::InvalidTimeFormat(_))
    ));
}

#[test]
fn exit_codes_before_and_after_the_signal() {
    let p = policy(None, false);
    let (_, a) = step(&p, TimeoutPhase::Watching, ChildStatus::Exited(Some(3)), Duration::from_secs(0));
    assert!(matches!(a, TimeoutAction::Exit(3)));
    let (_, a) = step(&p, TimeoutPhase::Watching, ChildStatus::Exited(None), Duration::from_secs(0));
    assert!(matches!(a, TimeoutAction::Exit(1)));
    let (_, a) = step(&p, TimeoutPhase::Reaping, ChildStatus::Exited(None), Duration::from_secs(0));
    assert!(matches!(a, TimeoutAction::Exit(1)));
    // after the timeout, the code of a timeout, whatever the command's own
    let (_, a) = step(&p, TimeoutPhase::Reaping, ChildStatus::Exited(Some(0)), Duration::from_secs(0));
    assert!(matches!(a, TimeoutAction::Exit(1)));
    let (_, a) = step(&p, TimeoutPhase::Escalating, ChildStatus::Exited(Some(7)), Duration::from_secs(0));
    assert!(matches!(a, TimeoutAction::Exit(1)));
}

#[test]
fn preserve_status_keeps_the_command_code() {
    let p = policy(Some(Duration::from_secs(2)), true);
    for phase in [TimeoutPhase::Watching, TimeoutPhase::Escalating, TimeoutPhase::Reaping] {
        for code in [0, 3, 9, 143] {
            let (next, a) = step(&p, phase, ChildStatus::Exited(Some(code)), Duration::from_secs(0));
            assert!(next == phase);
            assert!(matches!(a, TimeoutAction::Exit(c) if c == code));
        }
    }
    let (_, a) = step(&p, TimeoutPhase::Watching, ChildStatus::Exited(None), Duration::from_secs(0));
    assert!(matches!(a, TimeoutAction::Exit(1)));
    let (_, a) = step(&p, TimeoutPhase::Reaping, ChildStatus::Exited(None), Duration::from_secs(0));
    assert!(matches!(a, TimeoutAction::Exit(1)));
}

#[test]
fn signal_at_the_limit_then_kill_after_grace() {
    let p = policy(Some(Duration::from_secs(2)), false);
    let (ph, a) = step(&p, TimeoutPhase::Watching, ChildStatus::Running, Duration::new(0, 999_999_999).unwrap());
    assert!(ph == TimeoutPhase::Watching && matches!(a, TimeoutAction::Poll));
    let (ph, a) = step(&p, TimeoutPhase::Watching, ChildStatus::Running, Duration::from_secs(1));
    assert!(ph == TimeoutPhase::Escalating && matches!(a, TimeoutAction::Signal(Signal::Term)));
    let (ph, a) = step(&p, TimeoutPhase::Escalating, ChildStatus::Running, Duration::from_secs(1));
    assert!(ph == TimeoutPhase::Escalating && matches!(a, TimeoutAction::Poll));
    let (ph, a) = step(&p, TimeoutPhase::Escalating, ChildStatus::Running, Duration::from_secs(2));
    assert!(ph == TimeoutPhase::Escalating && matches!(a, TimeoutAction::Kill));
    let (ph, a) = step(&policy(None, false), TimeoutPhase::Watching, ChildStatus::Running, Duration::from_secs(3));
    assert!(ph == TimeoutPhase::Reaping && matches!(a, TimeoutAction::Signal(Signal::Term)));
}

#[test]
fn wait_failures() {
    let p = policy(None, false);
    match step(&p, TimeoutPhase::Watching, ChildStatus::Failed("x".to_string()), Duration::from_secs(0)).1 {
        TimeoutAction::Fail(StandbyError::ProcessError(m)) => assert_eq!(m, "Failed to wait for process: x"),
        _ => panic!("expected a failure"),
    }
    match step(&p, TimeoutPhase::Escalating, ChildStatus::Failed("y".to_string()), Duration::from_secs(0)).1 {
        TimeoutAction::Fail(StandbyError::ProcessError(m)) => assert_eq!(m, "Error waiting for process: y"),
        _ => panic!("expected a failure"),
    }
}

#[test]
fn after_the_signal_no_second_signal() {
    let p = policy(Some(Duration::from_secs(1)), false);
    for phase in [TimeoutPhase::Escalating, TimeoutPhase::Reaping] {
        for elapsed in [0u64, 1, 100] {
            let (next, a) = step(&p, phase, ChildStatus::Running, Duration::from_secs(elapsed));
            assert!(next != TimeoutPhase::Watching);
            assert!(!matches!(a, TimeoutAction::Signal(_)));
        }
    }
}

#[test]
fn grace_period_that_cannot_be_cut() {
    let limit = Duration::from_secs(1);
    assert!(try_escalation(&args("1", "TERM", Some("5\u{bd}s"), false), limit).is_none());
    // an unknown signal is reported before the grace period is read
    assert!(matches!(
        try_escalation(&args("1", "BOGUS", Some("5\u{bd}s"), false), limit),
        Some(Err(StandbyError::InvalidArgument(_)))
    ));
    assert_eq!(
        try_escalation(&args("1", "TERM", Some("2s"), false), limit).unwrap().unwrap().kill_after,
        Some(Duration::from_secs(2))
    );
}
