//! Standby: parsing of human-readable durations and the decisions behind the
//! `sleep`, `timeout` and `wait` commands, with their contracts proved by Verus.
//!
//! - `time`: durations, the duration parser and its laws;
//! - `commands`: what each subcommand reads from its arguments and decides;
//! - `signals`: the signals of `timeout` and their delivery on Windows;
//! - `timing`: the decisions of the loops that wait for a child with a timeout;
//! - `debug`: verbose mode;
//! - `text`: characters and strings;
//! - `errors`: the error type.

pub mod commands;
pub mod debug;
pub mod errors;
pub mod signals;
pub mod text;
pub mod time;
pub mod timing;

pub use errors::{Result, StandbyError};
