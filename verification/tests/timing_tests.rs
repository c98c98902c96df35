use standby::errors::StandbyError;
use standby::time::Duration;
use standby::timing::{next_poll_interval, poll_step, timer_step, ChildPoll, PollStep, TimerPoll};

fn message(step: PollStep) -> String {
    match step {
        PollStep::Stop(StandbyError::ProcessError(m)) => m,
        _ => panic!("expected a process error"),
    }
}

#[test]
fn polling_decisions() {
    let limit = Some(Duration::from_secs(5));
    assert!(matches!(
        poll_step(ChildPoll::Exited, limit, Duration::from_secs(9)),
        PollStep::Finished
    ));
    assert!(matches!(
        poll_step(ChildPoll::Running, limit, Duration::from_secs(4)),
        PollStep::Continue
    ));
    assert_eq!(
        message(poll_step(ChildPoll::Running, limit, Duration::from_secs(5))),
        "Process timeout"
    );
    assert!(matches!(
        poll_step(ChildPoll::Running, None, Duration::from_secs(500)),
        PollStep::Continue
    ));
    assert_eq!(
        message(poll_step(ChildPoll::Failed("boom".to_string()), None, Duration::from_secs(0))),
        "Failed to wait for process: boom"
    );
}

#[test]
fn adaptive_polling_doubles_up_to_ten() {
    assert_eq!(next_poll_interval(1), 2);
    assert_eq!(next_poll_interval(4), 8);
    assert_eq!(next_poll_interval(8), 10);
    assert_eq!(next_poll_interval(10), 10);
}

#[test]
fn timer_decisions() {
    assert!(matches!(timer_step(TimerPoll::Quiet), PollStep::Continue));
    assert!(matches!(
        timer_step(TimerPoll::Ready { timer_fired: false }),
        PollStep::Continue
    ));
    assert_eq!(
        message(timer_step(TimerPoll::Ready { timer_fired: true })),
        "Process timeout"
    );
    assert_eq!(
        message(timer_step(TimerPoll::Failed("EINTR".to_string()))),
        "Poll failed: EINTR"
    );
}
