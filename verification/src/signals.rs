//! Signals that the `timeout` command can send, and the decisions around
//! delivering them where the platform supports fewer signals.

use vstd::prelude::*;
use crate::errors::StandbyError;

verus! {

/// Signals that can be sent to child processes.
#[derive(Debug, Clone, Copy, PartialEq, Eq, Structural)]
pub enum Signal {
    /// SIGTERM - graceful termination signal.
    Term,
    /// SIGKILL - forceful termination signal.
    Kill,
    /// SIGINT - interrupt signal.
    Int,
    /// SIGSTOP - pause process (Unix only).
    Stop,
    /// SIGCONT - resume process (Unix only).
    Cont,
    /// SIGTSTP - terminal stop, can be caught (Unix only).
    Tstp,
    /// SIGHUP - hangup signal (Unix only).
    Hup,
}

/// Cross-platform signal handling.
pub struct SignalHandler;

/// The message for SIGTERM on Windows.
pub open spec fn msg_no_term() -> Seq<char> {
    "SIGTERM not available on Windows; use --kill-after 0 to forcefully terminate immediately"@
}

/// The message for SIGINT on Windows.
pub open spec fn msg_no_int() -> Seq<char> {
    "SIGINT not available on Windows; use --kill-after 0 to forcefully terminate immediately"@
}

/// The message for the Unix-only signals on Windows.
pub open spec fn msg_unix_only() -> Seq<char> {
    "Signal not available on Windows (Unix-only signal)"@
}

/// The message for a failed `TerminateProcess`.
pub open spec fn msg_terminate_failed() -> Seq<char> {
    "TerminateProcess failed; process may have already exited"@
}

impl SignalHandler {
    /// Whether Windows can deliver `signal`: only `Kill` (by `TerminateProcess`);
    /// every other signal is refused with a `SignalError` that says why.
    pub fn windows_delivery(signal: Signal) -> (r: Result<(), StandbyError>)
        ensures
            signal == Signal::Kill <==> r is Ok,
            signal == Signal::Term ==> (r matches Err(StandbyError::SignalError(m)) && m@
                == msg_no_term()),
            signal == Signal::Int ==> (r matches Err(StandbyError::SignalError(m)) && m@
                == msg_no_int()),
            (signal == Signal::Stop || signal == Signal::Cont || signal == Signal::Tstp || signal
                == Signal::Hup) ==> (r matches Err(StandbyError::SignalError(m)) && m@
                == msg_unix_only()),
    {
        match signal {
            Signal::Kill => Ok(()),
            Signal::Term => Err(
                StandbyError::SignalError(
                    String::from_str(
                        "SIGTERM not available on Windows; use --kill-after 0 to forcefully terminate immediately",
                    ),
                ),
            ),
            Signal::Int => Err(
                StandbyError::SignalError(
                    String::from_str(
                        "SIGINT not available on Windows; use --kill-after 0 to forcefully terminate immediately",
                    ),
                ),
            ),
            Signal::Stop | Signal::Cont | Signal::Tstp | Signal::Hup => Err(
                StandbyError::SignalError(
                    String::from_str("Signal not available on Windows (Unix-only signal)"),
                ),
            ),
        }
    }

    /// What the return value of `TerminateProcess` means: non-zero is success.
    pub fn terminate_outcome(result: i32) -> (r: Result<(), StandbyError>)
        ensures
            result != 0 <==> r is Ok,
            result == 0 ==> (r matches Err(StandbyError::SignalError(m)) && m@
                == msg_terminate_failed()),
    {
        if result != 0 {
            Ok(())
        } else {
            Err(
                StandbyError::SignalError(
                    String::from_str("TerminateProcess failed; process may have already exited"),
                ),
            )
        }
    }
}

} // verus!
