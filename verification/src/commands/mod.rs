//! The commands of standby: the arguments each one takes and what each one
//! decides before and while it does its work.

pub mod completions;
pub mod sleep;
pub mod timeout;
pub mod wait;

use vstd::prelude::*;
use crate::errors::StandbyError;
use crate::time::Duration;
use crate::time::parser::{parse_fails, parse_spec};

verus! {

/// Root command line of the standby application.
pub struct Cli {
    /// Subcommand to execute.
    pub command: Commands,
}

/// Available subcommands for standby.
pub enum Commands {
    /// Suspend execution for a specified time.
    Sleep(sleep::SleepArgs),
    /// Run a command with a time limit.
    Timeout(timeout::TimeoutArgs),
    /// Wait for a process to complete (with optional timeout).
    Wait(wait::WaitArgs),
    /// Print a shell completion script.
    Completions(completions::CompletionsArgs),
}

/// What a subcommand sets out to do, once its arguments are read.
pub enum Plan {
    /// Sleep as planned.
    Sleep(sleep::SleepPlan),
    /// Run the command and stop it once this time limit is reached.
    Timeout(Duration),
    /// Wait for processes as planned.
    Wait(wait::WaitPlan),
    /// Print this completion script.
    Completions(String),
}

impl Cli {
    /// The arguments that `execute` accepts: a completion shell must be known,
    /// and each duration that is read must be one that `parse_duration` can
    /// read (see `parse_fails`).
    pub open spec fn valid(&self) -> bool {
        match self.command {
            Commands::Completions(a) => completions::known_shell(a.shell@),
            Commands::Sleep(a) => !parse_fails(a.duration@),
            Commands::Timeout(a) => !parse_fails(a.duration@),
            Commands::Wait(a) => a.pids.len() > 0 ==> (a.timeout matches Some(t) ==> !parse_fails(
                t@,
            )),
        }
    }

    /// Reads the arguments of the selected subcommand into its plan.
    pub fn execute(self) -> (r: Result<Plan, StandbyError>)
        requires
            self.valid(),
        ensures
            match self.command {
                Commands::Sleep(a) => match sleep::sleep_spec(a.duration@) {
                    Ok(p) => r == Ok::<Plan, StandbyError>(Plan::Sleep(p)),
                    Err(f) => r matches Err(e) && crate::time::parser::reports(e, f),
                },
                Commands::Timeout(a) => match parse_spec(a.duration@) {
                    Ok(d) => r == Ok::<Plan, StandbyError>(Plan::Timeout(d.limit_of())),
                    Err(f) => r matches Err(e) && crate::time::parser::reports(e, f),
                },
                Commands::Wait(a) => match r {
                    Ok(Plan::Wait(p)) => wait::plan_of(a, p),
                    Ok(_) => false,
                    Err(e) => wait::refusal_of(a, e),
                },
                Commands::Completions(a) => r matches Ok(Plan::Completions(s)) && s@
                    == completions::script(a.shell@),
            },
    {
        match self.command {
            Commands::Sleep(a) => match sleep::execute(a) {
                Ok(p) => Ok(Plan::Sleep(p)),
                Err(e) => Err(e),
            },
            Commands::Timeout(a) => match timeout::execute(&a) {
                Ok(l) => Ok(Plan::Timeout(l)),
                Err(e) => Err(e),
            },
            Commands::Wait(a) => match wait::execute(&a) {
                Ok(p) => Ok(Plan::Wait(p)),
                Err(e) => Err(e),
            },
            Commands::Completions(a) => Ok(Plan::Completions(completions::execute(&a))),
        }
    }
}

} // verus!
