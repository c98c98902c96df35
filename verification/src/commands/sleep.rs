//! The sleep subcommand: suspend execution for a specified duration.

use vstd::prelude::*;
use crate::errors::StandbyError;
use crate::time::Duration;
use crate::time::parser::{parse_duration, parse_fails, parse_spec, reports, Failure};

verus! {

/// Arguments for the sleep subcommand.
pub struct SleepArgs {
    /// Duration to sleep (e.g., "5", "5s", "1m30s", "1h", "infinity").
    pub duration: String,
}

/// How long to sleep.
pub enum SleepPlan {
    /// An infinite duration: sleep in one-second steps forever.
    Forever,
    /// Sleep for this finite duration.
    For(Duration),
}

/// The plan for the duration string `s`.
pub open spec fn sleep_spec(s: Seq<char>) -> Result<SleepPlan, Failure> {
    match parse_spec(s) {
        Ok(d) => if d.secs == u64::MAX {
            Ok(SleepPlan::Forever)
        } else {
            Ok(SleepPlan::For(d))
        },
        Err(f) => Err(f),
    }
}

/// Reads the sleep duration; an infinite one means sleeping forever.
pub fn execute(args: SleepArgs) -> (r: Result<SleepPlan, StandbyError>)
    requires
        !parse_fails(args.duration@),
    ensures
        match sleep_spec(args.duration@) {
            Ok(p) => r == Ok::<SleepPlan, StandbyError>(p),
            Err(f) => r matches Err(e) && reports(e, f),
        },
{
    let duration = parse_duration(args.duration.as_str());
    match duration {
        Ok(d) => {
            if d.is_infinite() {
                Ok(SleepPlan::Forever)
            } else {
                Ok(SleepPlan::For(d))
            }
        },
        Err(e) => Err(e),
    }
}

/// A finite duration is slept in full, the infinite one forever, and a
/// refused one is refused with the same failure.
pub proof fn law_sleep_plans(s: Seq<char>)
    ensures
        match parse_spec(s) {
            Ok(d) => sleep_spec(s) == if d.secs == u64::MAX {
                Ok::<SleepPlan, Failure>(SleepPlan::Forever)
            } else {
                Ok::<SleepPlan, Failure>(SleepPlan::For(d))
            },
            Err(f) => sleep_spec(s) == Err::<SleepPlan, Failure>(f),
        },
{
}

} // verus!
