//! Error types for standby operations.

use vstd::prelude::*;

verus! {

/// `std::io::Error`, declared so that `StandbyError::IoError` can carry it;
/// nothing is claimed of its contents.
#[verifier::external_type_specification]
#[verifier::external_body]
pub struct ExIoError(std::io::Error);

/// Result type alias for standby operations.
pub type Result<T> = std::result::Result<T, StandbyError>;

/// Errors that can occur during standby operations.
#[derive(Debug)]
pub enum StandbyError {
    /// Error parsing time format string.
    InvalidTimeFormat(String),
    /// Time value outside acceptable range.
    TimeOutOfRange(String),
    /// Error sending or handling signals.
    SignalError(String),
    /// Error managing child process.
    ProcessError(String),
    /// Requested command could not be found.
    CommandNotFound(String),
    /// Invalid argument provided to command.
    InvalidArgument(String),
    /// I/O error from the operating system.
    IoError(std::io::Error),
    /// Internal error in standby library.
    Internal(String),
}

} // verus!
