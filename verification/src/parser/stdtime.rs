//! Parsing systemd-style durations into `std::time::Duration`.

use crate::duration::stdtime::duration_nanos;
use crate::duration::Target;
use crate::error::Error;
use crate::parser::{duration, parsed_nanos};
use vstd::prelude::*;
use vstd::string::StringSliceAdditionalSpecFns;

verus! {

/// Parse a duration string into a `std::time::Duration`.
///
/// # Errors
///
/// Returns `Error::ParserError` if the input string is not a valid duration
/// format, and `Error::DurationOverflow` if it cannot be converted into a
/// `std::time::Duration`.
pub fn parse(input: &str) -> (r: Result<std::time::Duration, Error>)
    ensures
        match r {
            Ok(d) => parsed_nanos(input.spec_bytes(), Target::StdTime) == Ok::<_, Error>(
                duration_nanos(d),
            ),
            Err(e) => parsed_nanos(input.spec_bytes(), Target::StdTime) == Err::<int, _>(e),
        },
{
    let dur = match duration(input.as_bytes()) {
        Ok(c) => c,
        Err(e) => {
            return Err(Error::ParserError(e));
        },
    };
    dur.try_into()
}

} // verus!
