//! Time durations with nanosecond precision, the parser of duration strings,
//! and the laws that relate them.

pub mod duration;
pub mod laws;
pub mod magnitude;
pub mod parser;

pub use duration::Duration;
pub use parser::parse_duration;
