//! Parsing systemd-style durations into `chrono::TimeDelta`.

pub use crate::parser::chrono::parse;
