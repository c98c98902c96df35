//! Verbose mode for timeout troubleshooting: a setting that is fixed by its
//! first initialization, and the lines that verbose mode writes.

use vstd::prelude::*;
use crate::text::string_from;

verus! {

/// The verbose setting: unset until it is initialized, then fixed.
pub struct VerboseMode {
    setting: Option<bool>,
}

impl VerboseMode {
    /// The setting, `None` while uninitialized.
    pub closed spec fn setting(self) -> Option<bool> {
        self.setting
    }

    /// An uninitialized verbose mode.
    pub fn new() -> (m: VerboseMode)
        ensures
            m.setting() is None,
    {
        VerboseMode { setting: None }
    }
}

/// The setting after an initialization with `verbose`: the first one is kept.
pub open spec fn after_init(setting: Option<bool>, verbose: bool) -> Option<bool> {
    if setting is None {
        Some(verbose)
    } else {
        setting
    }
}

/// Initializes verbose mode; only the first initialization takes effect.
pub fn init_verbose(mode: &mut VerboseMode, verbose: bool)
    ensures
        final(mode).setting() == after_init(old(mode).setting(), verbose),
{
    if mode.setting.is_none() {
        mode.setting = Some(verbose);
    }
}

/// Whether verbose mode is enabled (false until initialized).
pub fn is_verbose(mode: &VerboseMode) -> (b: bool)
    ensures
        b == (mode.setting() == Some(true)),
{
    match mode.setting {
        Some(v) => v,
        None => false,
    }
}

/// The line that verbose mode writes for `message`, or `None` when it is off.
pub fn debug_line(mode: &VerboseMode, message: &str) -> (r: Option<String>)
    ensures
        mode.setting() == Some(true) ==> (r matches Some(l) && l@ == "[standby] "@ + message@),
        mode.setting() != Some(true) ==> r is None,
{
    if is_verbose(mode) {
        let chars = crate::text::chars_of(message);
        Some(string_from("[standby] ", &chars))
    } else {
        None
    }
}

/// Verbose mode is set once: after a first initialization with `first`, any
/// later initialization leaves it at `first`.
pub proof fn law_first_initialization_wins(setting: Option<bool>, first: bool, later: bool)
    ensures
        after_init(after_init(setting, first), later) == after_init(setting, first),
        setting is None ==> after_init(after_init(setting, first), later) == Some(first),
{
}

} // verus!
