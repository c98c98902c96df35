//! The timeout subcommand: run a command with a time limit, signal it when the
//! limit is reached, and optionally kill it after a grace period.

use vstd::prelude::*;
use crate::errors::StandbyError;
use crate::signals::Signal;
use crate::text::{
    all_ascii, ascii_uppercase, chars_of, decimal_digits, digit_char, equals, push_str, string_from,
};
use crate::time::Duration;
use crate::time::parser::{parse_duration, parse_fails, parse_fails_exec, parse_spec, reports};

verus! {

/// Arguments for the timeout subcommand.
pub struct TimeoutArgs {
    /// Duration before timeout (e.g., "5", "5s", "1m30s").
    pub duration: String,
    /// Command to run.
    pub command: String,
    /// Command arguments.
    pub args: Vec<String>,
    /// Signal to send on timeout (default: TERM).
    pub signal: String,
    /// Time to wait before sending SIGKILL after the initial signal.
    pub kill_after: Option<String>,
    /// Preserve status of command.
    pub preserve_status: bool,
    /// Run command in foreground (same process group).
    pub foreground: bool,
    /// Enable verbose output for debugging timeout behavior.
    pub verbose: bool,
}

/// Reads the time limit: the parsed duration as `to_std_duration` gives it.
pub fn execute(args: &TimeoutArgs) -> (r: Result<Duration, StandbyError>)
    requires
        !parse_fails(args.duration@),
    ensures
        match parse_spec(args.duration@) {
            Ok(d) => r == Ok::<Duration, StandbyError>(d.limit_of()),
            Err(f) => r matches Err(e) && reports(e, f),
        },
{
    match parse_duration(args.duration.as_str()) {
        Ok(d) => Ok(d.std_limit()),
        Err(e) => Err(e),
    }
}

/// The signal that an upper-case signal name or number stands for.
pub open spec fn signal_named(u: Seq<char>) -> Option<Signal> {
    if u == "TERM"@ || u == "15"@ {
        Some(Signal::Term)
    } else if u == "KILL"@ || u == "9"@ {
        Some(Signal::Kill)
    } else if u == "INT"@ || u == "2"@ {
        Some(Signal::Int)
    } else if u == "STOP"@ || u == "19"@ {
        Some(Signal::Stop)
    } else if u == "CONT"@ || u == "18"@ {
        Some(Signal::Cont)
    } else if u == "TSTP"@ || u == "20"@ {
        Some(Signal::Tstp)
    } else if u == "HUP"@ || u == "1"@ {
        Some(Signal::Hup)
    } else {
        None
    }
}

/// The message for an unknown signal given as `given`.
pub open spec fn msg_unknown_signal(given: Seq<char>) -> Seq<char> {
    "Unknown signal: "@ + given + " (supported: TERM, KILL, INT, STOP, CONT, TSTP, HUP)"@
}

/// `r` is what a signal named `upper` (written `given` by the user) gives.
pub open spec fn signal_outcome(r: Result<Signal, StandbyError>, upper: Seq<char>, given: Seq<char>) -> bool {
    match signal_named(upper) {
        Some(s) => r == Ok::<Signal, StandbyError>(s),
        None => r matches Err(StandbyError::InvalidArgument(m)) && m@ == msg_unknown_signal(given),
    }
}

/// The signal named by the upper-cased name `upper` of what the user wrote as `given`.
pub fn signal_from_upper(upper: &str, given: &str) -> (r: Result<Signal, StandbyError>)
    ensures
        signal_outcome(r, upper@, given@),
{
    if equals(upper, "TERM") || equals(upper, "15") {
        Ok(Signal::Term)
    } else if equals(upper, "KILL") || equals(upper, "9") {
        Ok(Signal::Kill)
    } else if equals(upper, "INT") || equals(upper, "2") {
        Ok(Signal::Int)
    } else if equals(upper, "STOP") || equals(upper, "19") {
        Ok(Signal::Stop)
    } else if equals(upper, "CONT") || equals(upper, "18") {
        Ok(Signal::Cont)
    } else if equals(upper, "TSTP") || equals(upper, "20") {
        Ok(Signal::Tstp)
    } else if equals(upper, "HUP") || equals(upper, "1") {
        Ok(Signal::Hup)
    } else {
        let given_chars = chars_of(given);
        let mut m = string_from("Unknown signal: ", &given_chars);
        push_str(&mut m, " (supported: TERM, KILL, INT, STOP, CONT, TSTP, HUP)");
        Err(StandbyError::InvalidArgument(m))
    }
}

/// What `str::to_uppercase` returns for `s`: Unicode upper case.
pub uninterp spec fn unicode_uppercase(s: Seq<char>) -> Seq<char>;

/// Calls `str::to_uppercase`; its result is taken to be `unicode_uppercase(s)`,
/// a name for that function of `s` whose case tables Verus does not see. Of an
/// all-ASCII `s` it is also taken to be `s` with `a`..`z` raised to `A`..`Z` and
/// every other character kept, as Unicode maps ASCII; of other characters
/// nothing more is said.
#[verifier::external_body]
fn to_uppercase(s: &str) -> (r: String)
    ensures
        r@ == unicode_uppercase(s@),
        all_ascii(s@) ==> r@ == ascii_uppercase(s@),
{
    s.to_uppercase()
}

/// Parses a signal name or number (any case) into a `Signal`.
pub fn parse_signal(signal_str: &str) -> (r: Result<Signal, StandbyError>)
    ensures
        signal_outcome(r, unicode_uppercase(signal_str@), signal_str@),
        all_ascii(signal_str@) ==> signal_outcome(r, ascii_uppercase(signal_str@), signal_str@),
{
    let upper = to_uppercase(signal_str);
    signal_from_upper(upper.as_str(), signal_str)
}

/// The POSIX number of a signal, as shown in verbose output.
pub open spec fn signal_number(signal: Signal) -> int {
    match signal {
        Signal::Hup => 1,
        Signal::Int => 2,
        Signal::Term => 15,
        Signal::Kill => 9,
        Signal::Stop => 19,
        Signal::Cont => 18,
        Signal::Tstp => 20,
    }
}

/// Converts a `Signal` to its POSIX signal number for display.
pub fn signal_to_number(signal: &Signal) -> (n: i32)
    ensures
        n == signal_number(*signal),
{
    match signal {
        Signal::Hup => 1,
        Signal::Int => 2,
        Signal::Term => 15,
        Signal::Kill => 9,
        Signal::Stop => 19,
        Signal::Cont => 18,
        Signal::Tstp => 20,
    }
}

/// How the timeout is enforced once the command runs.
pub struct TimeoutPolicy {
    /// The time limit.
    pub limit: Duration,
    /// The signal sent when the limit is reached.
    pub signal: Signal,
    /// The grace period after the signal, before SIGKILL.
    pub kill_after: Option<Duration>,
    /// Exit with the command's own code also when it ends after the timeout.
    pub preserve_status: bool,
}

/// `r` is what reading the signal and the grace period of `args` gives, for the
/// time limit `limit`.
pub open spec fn escalates(args: TimeoutArgs, limit: Duration, r: Result<TimeoutPolicy, StandbyError>) -> bool {
    match signal_named(unicode_uppercase(args.signal@)) {
        None => r matches Err(StandbyError::InvalidArgument(m)) && m@ == msg_unknown_signal(
            args.signal@,
        ),
        Some(sig) => match args.kill_after {
            None => r == Ok::<TimeoutPolicy, StandbyError>(
                TimeoutPolicy {
                    limit,
                    signal: sig,
                    kill_after: None,
                    preserve_status: args.preserve_status,
                },
            ),
            Some(k) => match parse_spec(k@) {
                Err(f) => r matches Err(e) && reports(e, f),
                Ok(d) => r == Ok::<TimeoutPolicy, StandbyError>(
                    TimeoutPolicy {
                        limit,
                        signal: sig,
                        kill_after: Some(d.limit_of()),
                        preserve_status: args.preserve_status,
                    },
                ),
            },
        },
    }
}

/// Reads the signal and the grace period (after the command was spawned, as the
/// command does), completing the policy for the time limit `limit`.
pub fn escalation(args: &TimeoutArgs, limit: Duration) -> (r: Result<TimeoutPolicy, StandbyError>)
    requires
        signal_named(unicode_uppercase(args.signal@)) is Some ==> (args.kill_after matches Some(k)
            ==> !parse_fails(k@)),
    ensures
        escalates(*args, limit, r),
{
    let signal = match parse_signal(args.signal.as_str()) {
        Ok(s) => s,
        Err(e) => {
            return Err(e);
        },
    };
    let kill_after = match &args.kill_after {
        Some(k) => match parse_duration(k.as_str()) {
            Ok(d) => Some(d.std_limit()),
            Err(e) => {
                return Err(e);
            },
        },
        None => None,
    };
    Ok(TimeoutPolicy { limit, signal, kill_after, preserve_status: args.preserve_status })
}

/// `escalation`, when the grace period can be read: `None` when the signal is
/// known and the grace period is a text that `parse_fails`.
pub fn try_escalation(args: &TimeoutArgs, limit: Duration) -> (r: Option<
    Result<TimeoutPolicy, StandbyError>,
>)
    ensures
        r is None <==> (signal_named(unicode_uppercase(args.signal@)) is Some && (args.kill_after matches Some(k)
            && parse_fails(k@))),
        r matches Some(x) ==> escalates(*args, limit, x),
{
    let known = parse_signal(args.signal.as_str()).is_ok();
    let blocked = match &args.kill_after {
        Some(k) => parse_fails_exec(k.as_str()),
        None => false,
    };
    if known && blocked {
        None
    } else {
        Some(escalation(args, limit))
    }
}

/// Where the timeout command stands.
#[derive(Debug, Clone, Copy, PartialEq, Eq, Structural)]
pub enum TimeoutPhase {
    /// Waiting for the command to finish or the time limit to pass.
    Watching,
    /// The signal was sent; waiting out the grace period before SIGKILL.
    Escalating,
    /// The signal was sent without a grace period; waiting for the command to end.
    Reaping,
}

/// What polling the command found.
pub enum ChildStatus {
    /// The command exited, with its exit code if it has one.
    Exited(Option<i32>),
    /// The command is still running.
    Running,
    /// Waiting for the command failed, with the error's text.
    Failed(String),
}

/// What the timeout command does next.
pub enum TimeoutAction {
    /// Exit the process with this code.
    Exit(i32),
    /// Return this error.
    Fail(StandbyError),
    /// Sleep 10 ms and poll again.
    Poll,
    /// Report and send this signal to the command.
    Signal(Signal),
    /// Report and send SIGKILL to the command, then pause before polling again.
    Kill,
}

/// A status as the specification sees it.
pub enum Status {
    /// Exited, with an exit code or none.
    Exited(Option<i32>),
    /// Still running.
    Running,
    /// Waiting failed with this text.
    Failed(Seq<char>),
}

/// The status that `s` reports.
pub open spec fn status_of(s: ChildStatus) -> Status {
    match s {
        ChildStatus::Exited(c) => Status::Exited(c),
        ChildStatus::Running => Status::Running,
        ChildStatus::Failed(e) => Status::Failed(e@),
    }
}

/// An action as the specification sees it.
pub enum Move {
    /// Exit with this code.
    Exit(int),
    /// Return a `ProcessError` with this message.
    Fail(Seq<char>),
    /// Poll again.
    Poll,
    /// Send this signal.
    Signal(Signal),
    /// Send SIGKILL.
    Kill,
}

/// The action `a` is the move `m`.
pub open spec fn performs(a: TimeoutAction, m: Move) -> bool {
    match m {
        Move::Exit(c) => a matches TimeoutAction::Exit(x) && x == c,
        Move::Fail(msg) => a matches TimeoutAction::Fail(StandbyError::ProcessError(s)) && s@ == msg,
        Move::Poll => a is Poll,
        Move::Signal(sig) => a matches TimeoutAction::Signal(x) && x == sig,
        Move::Kill => a is Kill,
    }
}

/// The code that the process exits with once the command has ended with `code`:
/// the command's own code while it is watched, and after the timeout only with
/// `preserve_status`; else 1, the code of a timeout. A command ended by a
/// signal has no code: that counts as 1, a failed command.
pub open spec fn exit_code(p: TimeoutPolicy, phase: TimeoutPhase, code: Option<i32>) -> int {
    match code {
        Some(c) => if phase == TimeoutPhase::Watching || p.preserve_status {
            c as int
        } else {
            1
        },
        None => 1,
    }
}

/// The next phase and move of the timeout command, given what polling found and
/// the time elapsed (since the start while watching, since the signal while
/// escalating).
///
/// An exited command ends the run with the code of `exit_code`. A failed wait
/// ends it with an error. A running command is signalled once the
/// limit is reached, then killed once the grace period is over, if there is one.
pub open spec fn step_spec(p: TimeoutPolicy, phase: TimeoutPhase, st: Status, elapsed: Duration) -> (TimeoutPhase, Move) {
    match st {
        Status::Exited(code) => (phase, Move::Exit(exit_code(p, phase, code))),
        Status::Failed(e) => (
            phase,
            Move::Fail(
                if phase == TimeoutPhase::Watching {
                    "Failed to wait for process: "@ + e
                } else {
                    "Error waiting for process: "@ + e
                },
            ),
        ),
        Status::Running => match phase {
            TimeoutPhase::Watching => if elapsed.reaches(p.limit) {
                (
                    if p.kill_after is Some {
                        TimeoutPhase::Escalating
                    } else {
                        TimeoutPhase::Reaping
                    },
                    Move::Signal(p.signal),
                )
            } else {
                (TimeoutPhase::Watching, Move::Poll)
            },
            TimeoutPhase::Escalating => match p.kill_after {
                Some(k) => if elapsed.reaches(k) {
                    (TimeoutPhase::Escalating, Move::Kill)
                } else {
                    (TimeoutPhase::Escalating, Move::Poll)
                },
                None => (TimeoutPhase::Escalating, Move::Poll),
            },
            TimeoutPhase::Reaping => (TimeoutPhase::Reaping, Move::Poll),
        },
    }
}

/// One decision of the timeout command, as `step_spec` describes it.
pub fn step(policy: &TimeoutPolicy, phase: TimeoutPhase, status: ChildStatus, elapsed: Duration) -> (r: (TimeoutPhase, TimeoutAction))
    ensures
        r.0 == step_spec(*policy, phase, status_of(status), elapsed).0,
        performs(r.1, step_spec(*policy, phase, status_of(status), elapsed).1),
{
    let watching = match phase {
        TimeoutPhase::Watching => true,
        _ => false,
    };
    match status {
        ChildStatus::Exited(code) => {
            let c = match code {
                Some(c) => if watching || policy.preserve_status {
                    c
                } else {
                    1
                },
                None => 1,
            };
            (phase, TimeoutAction::Exit(c))
        },
        ChildStatus::Failed(e) => {
            let chars = chars_of(e.as_str());
            let msg = if watching {
                string_from("Failed to wait for process: ", &chars)
            } else {
                string_from("Error waiting for process: ", &chars)
            };
            (phase, TimeoutAction::Fail(StandbyError::ProcessError(msg)))
        },
        ChildStatus::Running => match phase {
            TimeoutPhase::Watching => {
                if elapsed.has_reached(&policy.limit) {
                    let next = if policy.kill_after.is_some() {
                        TimeoutPhase::Escalating
                    } else {
                        TimeoutPhase::Reaping
                    };
                    (next, TimeoutAction::Signal(policy.signal))
                } else {
                    (TimeoutPhase::Watching, TimeoutAction::Poll)
                }
            },
            TimeoutPhase::Escalating => match &policy.kill_after {
                Some(k) => {
                    if elapsed.has_reached(k) {
                        (TimeoutPhase::Escalating, TimeoutAction::Kill)
                    } else {
                        (TimeoutPhase::Escalating, TimeoutAction::Poll)
                    }
                },
                None => (TimeoutPhase::Escalating, TimeoutAction::Poll),
            },
            TimeoutPhase::Reaping => (TimeoutPhase::Reaping, TimeoutAction::Poll),
        },
    }
}

/// Once the timeout has fired, the chosen signal is never sent again and the
/// command is never watched again.
pub proof fn law_signal_sent_once(p: TimeoutPolicy, phase: TimeoutPhase, st: Status, elapsed: Duration)
    requires
        phase != TimeoutPhase::Watching,
    ensures
        !(step_spec(p, phase, st, elapsed).1 is Signal),
        step_spec(p, phase, st, elapsed).0 != TimeoutPhase::Watching,
{
}

/// The signal is sent only to a running command whose time limit has been
/// reached, and it is the policy's signal.
pub proof fn law_signal_only_at_limit(p: TimeoutPolicy, phase: TimeoutPhase, st: Status, elapsed: Duration)
    ensures
        step_spec(p, phase, st, elapsed).1 matches Move::Signal(s) ==> {
            &&& phase == TimeoutPhase::Watching
            &&& st is Running
            &&& elapsed.reaches(p.limit)
            &&& s == p.signal
        },
{
}

/// SIGKILL is sent only after the signal, once a grace period was given and has
/// passed.
pub proof fn law_kill_after_grace(p: TimeoutPolicy, phase: TimeoutPhase, st: Status, elapsed: Duration)
    ensures
        step_spec(p, phase, st, elapsed).1 is Kill ==> {
            &&& phase == TimeoutPhase::Escalating
            &&& p.kill_after matches Some(k) && elapsed.reaches(k)
        },
{
}

/// With `preserve_status`, a command that ends with an exit code, on its own or
/// after the timeout, has the process exit with that code.
pub proof fn law_preserve_status_keeps_the_code(p: TimeoutPolicy, phase: TimeoutPhase, code: i32, elapsed: Duration)
    requires
        p.preserve_status,
    ensures
        step_spec(p, phase, Status::Exited(Some(code)), elapsed) == (phase, Move::Exit(code as int)),
{
}

/// A command that ends before its time limit passes its exit code on, with or
/// without `preserve_status`.
pub proof fn law_code_passed_on_before_the_limit(p: TimeoutPolicy, code: i32, elapsed: Duration)
    ensures
        step_spec(p, TimeoutPhase::Watching, Status::Exited(Some(code)), elapsed).1 == Move::Exit(
            code as int,
        ),
{
}

/// Without `preserve_status`, a command that ends after the timeout fired has the
/// process exit with 1, whatever the command's own code.
pub proof fn law_timeout_exits_with_one(p: TimeoutPolicy, phase: TimeoutPhase, code: Option<i32>, elapsed: Duration)
    requires
        !p.preserve_status,
        phase != TimeoutPhase::Watching,
    ensures
        step_spec(p, phase, Status::Exited(code), elapsed).1 == Move::Exit(1),
{
}

/// Each signal's POSIX number, written in decimal, names that signal again:
/// the text is ASCII, so `parse_signal` of it gives the signal.
pub proof fn law_signal_numbers_read_back(sig: Signal)
    ensures
        all_ascii(decimal_digits(signal_number(sig) as nat)),
        signal_named(ascii_uppercase(decimal_digits(signal_number(sig) as nat))) == Some(sig),
{
    reveal_strlit("TERM");
    reveal_strlit("15");
    reveal_strlit("KILL");
    reveal_strlit("9");
    reveal_strlit("INT");
    reveal_strlit("2");
    reveal_strlit("STOP");
    reveal_strlit("19");
    reveal_strlit("CONT");
    reveal_strlit("18");
    reveal_strlit("TSTP");
    reveal_strlit("20");
    reveal_strlit("HUP");
    reveal_strlit("1");
    reveal_with_fuel(decimal_digits, 3);
    let n = signal_number(sig);
    let t = decimal_digits(n as nat);
    assert(digit_char(0) == '0' && digit_char(1) == '1' && digit_char(2) == '2' && digit_char(5)
        == '5' && digit_char(8) == '8' && digit_char(9) == '9');
    match sig {
        Signal::Term => {
            assert(t =~= seq!['1', '5']);
            assert(t =~= "15"@);
            assert(signal_named(t) == Some(sig));
        },
        Signal::Kill => {
            assert(t =~= seq!['9']);
            assert(t =~= "9"@);
            assert(signal_named(t) == Some(sig));
        },
        Signal::Int => {
            assert(t =~= seq!['2']);
            assert(t =~= "2"@);
            assert(t != "9"@) by {
                assert(t[0] != "9"@[0]);
            }
            assert(signal_named(t) == Some(sig));
        },
        Signal::Stop => {
            assert(t =~= seq!['1', '9']);
            assert(t =~= "19"@);
            assert(signal_named(t) == Some(sig));
        },
        Signal::Cont => {
            assert(t =~= seq!['1', '8']);
            assert(t =~= "18"@);
            assert(signal_named(t) == Some(sig));
        },
        Signal::Tstp => {
            assert(t =~= seq!['2', '0']);
            assert(t =~= "20"@);
            assert(signal_named(t) == Some(sig));
        },
        Signal::Hup => {
            assert(t =~= seq!['1']);
            assert(t =~= "1"@);
            assert(t != "9"@) by {
                assert(t[0] != "9"@[0]);
            }
            assert(t != "2"@) by {
                assert(t[0] != "2"@[0]);
            }
            assert(signal_named(t) == Some(sig));
        },
    }
    assert(ascii_uppercase(t) =~= t);
}

/// A running command is waited for: while polling finds it running, a step
/// never ends the run (no exit, no failure), and once the signal was sent
/// without a grace period the step only polls again.
pub proof fn law_running_command_is_awaited(p: TimeoutPolicy, phase: TimeoutPhase, elapsed: Duration)
    ensures
        !(step_spec(p, phase, Status::Running, elapsed).1 is Exit),
        !(step_spec(p, phase, Status::Running, elapsed).1 is Fail),
        phase == TimeoutPhase::Reaping ==> step_spec(p, phase, Status::Running, elapsed) == (
        TimeoutPhase::Reaping, Move::Poll),
{
}

/// A given grace period is always kept: when the signal is known and the
/// grace period reads as `d`, the policy has that signal, the time limit and
/// a grace period of `d` as `to_std_duration` gives it, zero included.
pub proof fn law_grace_period_kept(
    args: TimeoutArgs,
    limit: Duration,
    r: Result<TimeoutPolicy, StandbyError>,
    k: String,
    d: Duration,
)
    ensures
        escalates(args, limit, r) && args.kill_after == Some(k) && parse_spec(k@) == Ok::<
            Duration,
            crate::time::parser::Failure,
        >(d) && signal_named(unicode_uppercase(args.signal@)) is Some ==> (r matches Ok(p) && {
            &&& p.kill_after == Some(d.limit_of())
            &&& Some(p.signal) == signal_named(unicode_uppercase(args.signal@))
            &&& p.limit == limit
        }),
{
}

/// The course of a run while the command keeps running: it is polled until
/// the time limit, then sent the policy's signal; with a grace period `k` it
/// is killed once `k` has passed since the signal, and polled before that;
/// without one it is only waited for.
pub proof fn law_running_timeline(p: TimeoutPolicy, elapsed: Duration)
    ensures
        !elapsed.reaches(p.limit) ==> step_spec(p, TimeoutPhase::Watching, Status::Running, elapsed)
            == (TimeoutPhase::Watching, Move::Poll),
        elapsed.reaches(p.limit) ==> step_spec(p, TimeoutPhase::Watching, Status::Running, elapsed)
            == (if p.kill_after is Some {
            TimeoutPhase::Escalating
        } else {
            TimeoutPhase::Reaping
        }, Move::Signal(p.signal)),
        p.kill_after matches Some(k) ==> step_spec(
            p,
            TimeoutPhase::Escalating,
            Status::Running,
            elapsed,
        ) == (TimeoutPhase::Escalating, if elapsed.reaches(k) {
            Move::Kill
        } else {
            Move::Poll
        }),
{
}

} // verus!
