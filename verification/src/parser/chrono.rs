//! Parsing systemd-style durations into `chrono::TimeDelta`.

use crate::duration::chrono::timedelta_nanos;
use crate::duration::Target;
use crate::error::Error;
use crate::parser::{duration, parsed_nanos};
use vstd::prelude::*;
use vstd::string::StringSliceAdditionalSpecFns;

verus! {

/// Parse a duration string into a `chrono::TimeDelta`.
///
/// # Errors
///
/// Returns `Error::ParserError` if the input string is not a valid duration
/// format, and `Error::DurationOverflow` if it cannot be converted into a
/// `chrono::TimeDelta`.
pub fn parse(input: &str) -> (r: Result<::chrono::TimeDelta, Error>)
    ensures
        match r {
            Ok(d) => parsed_nanos(input.spec_bytes(), Target::Chrono) == Ok::<_, Error>(
                timedelta_nanos(d),
            ),
            Err(e) => parsed_nanos(input.spec_bytes(), Target::Chrono) == Err::<int, _>(e),
        },
{
    let dur = match duration(input.as_bytes()) {
        Ok(c) => c,
        Err(e) => {
            return Err(Error::ParserError(e));
        },
    };
    dur.try_into()
}

} // verus!
