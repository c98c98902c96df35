//! The decisions of the loops that wait for a child process with a timeout:
//! plain polling, adaptive polling, and waiting on a timer.

use vstd::prelude::*;
use crate::errors::StandbyError;
use crate::text::{chars_of, string_from};
use crate::time::Duration;

verus! {

/// What `try_wait` found of the child.
pub enum ChildPoll {
    /// The child has exited.
    Exited,
    /// The child is still running.
    Running,
    /// `try_wait` failed, with the error's text.
    Failed(String),
}

/// What a waiting loop does next.
pub enum PollStep {
    /// Return the child's exit status.
    Finished,
    /// Sleep a little and poll again.
    Continue,
    /// Give up with this error.
    Stop(StandbyError),
}

/// `r` is a stop with a `ProcessError` whose message is `m`.
pub open spec fn stops_with(r: PollStep, m: Seq<char>) -> bool {
    r matches PollStep::Stop(StandbyError::ProcessError(s)) && s@ == m
}

/// The step after a poll of the child: an exited child is finished; a failed
/// poll stops with "Failed to wait for process: <error>"; a running child
/// times out ("Process timeout") once `elapsed` reaches the timeout, if any,
/// else the loop continues.
pub fn poll_step(poll: ChildPoll, timeout: Option<Duration>, elapsed: Duration) -> (r: PollStep)
    ensures
        poll is Exited ==> r is Finished,
        poll matches ChildPoll::Failed(e) ==> stops_with(r, "Failed to wait for process: "@ + e@),
        poll is Running ==> (match timeout {
            Some(t) => if elapsed.reaches(t) {
                stops_with(r, "Process timeout"@)
            } else {
                r is Continue
            },
            None => r is Continue,
        }),
{
    match poll {
        ChildPoll::Exited => PollStep::Finished,
        ChildPoll::Failed(e) => {
            let chars = chars_of(e.as_str());
            PollStep::Stop(
                StandbyError::ProcessError(string_from("Failed to wait for process: ", &chars)),
            )
        },
        ChildPoll::Running => match timeout {
            Some(t) => {
                if elapsed.has_reached(&t) {
                    PollStep::Stop(StandbyError::ProcessError(String::from_str("Process timeout")))
                } else {
                    PollStep::Continue
                }
            },
            None => PollStep::Continue,
        },
    }
}

/// The longest pause, in milliseconds, of adaptive polling.
pub const MAX_POLL_INTERVAL_MS: u64 = 10;

/// The next pause of adaptive polling: doubled, up to 10 ms.
pub fn next_poll_interval(ms: u64) -> (r: u64)
    ensures
        ms < MAX_POLL_INTERVAL_MS ==> r == if 2 * ms < MAX_POLL_INTERVAL_MS {
            2 * ms
        } else {
            MAX_POLL_INTERVAL_MS as int
        },
        ms >= MAX_POLL_INTERVAL_MS ==> r == ms,
{
    if ms < MAX_POLL_INTERVAL_MS {
        let doubled = ms * 2;
        if doubled < MAX_POLL_INTERVAL_MS {
            doubled
        } else {
            MAX_POLL_INTERVAL_MS
        }
    } else {
        ms
    }
}

/// What a `poll` on the timer descriptor returned.
pub enum TimerPoll {
    /// Nothing became ready within the poll interval.
    Quiet,
    /// Some descriptor became ready; `timer_fired` tells whether the timer did.
    Ready { timer_fired: bool },
    /// `poll` failed, with the error's text.
    Failed(String),
}

/// The step after a poll of the timer: a fired timer stops with
/// "Process timeout", a failed poll with "Poll failed: <error>"; otherwise the
/// child is to be polled (`Continue`).
pub fn timer_step(event: TimerPoll) -> (r: PollStep)
    ensures
        (event matches TimerPoll::Ready { timer_fired } && timer_fired) ==> stops_with(
            r,
            "Process timeout"@,
        ),
        event matches TimerPoll::Failed(e) ==> stops_with(r, "Poll failed: "@ + e@),
        event is Quiet ==> r is Continue,
        (event matches TimerPoll::Ready { timer_fired } && !timer_fired) ==> r is Continue,
{
    match event {
        TimerPoll::Quiet => PollStep::Continue,
        TimerPoll::Ready { timer_fired } => {
            if timer_fired {
                PollStep::Stop(StandbyError::ProcessError(String::from_str("Process timeout")))
            } else {
                PollStep::Continue
            }
        },
        TimerPoll::Failed(e) => {
            let chars = chars_of(e.as_str());
            PollStep::Stop(StandbyError::ProcessError(string_from("Poll failed: ", &chars)))
        },
    }
}

} // verus!
