//! Parsing systemd-style durations into `std::time::Duration`.

pub use crate::parser::stdtime::parse;
