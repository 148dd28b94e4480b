//! Parsing of systemd-style time spans such as `1d3h`, `52.1775w` or `-1s-1ns`.
//!
//! A time span is a sequence of `<number><unit>` fragments, or a single bare
//! number that counts seconds. [`parser`] reads the text and yields the
//! fragments as a [`duration::Container`], which is then summed into one of
//! three duration types: [`std::time::Duration`], `chrono::TimeDelta` or
//! `time::Duration`. Each of the three has a `parse` function of its own:
//!
//! ```ignore
//! let td = systemd_duration::stdtime::parse("1d3s").expect("Could not parse duration");
//! assert_eq!(td, std::time::Duration::from_secs(86403));
//! ```
//!
//! Numbers are read as exact decimals with eighteen digits behind the point,
//! and every conversion is carried out in integer arithmetic on nanoseconds.
//! So each result is stated exactly in the contract of the function that
//! produces it, over these definitions:
//!
//! - [`parser::parsed`]: the fragments that a text is made of;
//! - [`duration::Duration::nanos`]: what one fragment amounts to in a type;
//! - [`duration::total_nanos`]: what a list of fragments amounts to;
//! - [`parser::parsed_nanos`]: the two together.
//!
//! [`laws`] holds what follows from them for every text.
//!
//! The month and the year are the averages of the Gregorian calendar,
//! 30.436875 and 365.2425 days.

pub mod chrono;
pub mod decimal;
pub mod duration;
pub mod error;
pub mod laws;
pub mod parser;
pub mod stdtime;
pub mod time;
pub mod unit;
