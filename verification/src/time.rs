//! Parsing systemd-style durations into `time::Duration`.

pub use crate::parser::time::parse;
