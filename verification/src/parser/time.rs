//! Parsing systemd-style durations into `time::Duration`.

use crate::duration::time::duration_nanos;
use crate::duration::Target;
use crate::error::Error;
use crate::parser::{duration, parsed_nanos};
use vstd::prelude::*;
use vstd::string::StringSliceAdditionalSpecFns;

verus! {

/// Parse a duration string into a `time::Duration`.
///
/// # Errors
///
/// Returns `Error::ParserError` if the input string is not a valid duration
/// format, and `Error::DurationOverflow` if it cannot be converted into a
/// `time::Duration`.
pub fn parse(input: &str) -> (r: Result<::time::Duration, Error>)
    ensures
        match r {
            Ok(d) => parsed_nanos(input.spec_bytes(), Target::Time) == Ok::<_, Error>(
                duration_nanos(d),
            ),
            Err(e) => parsed_nanos(input.spec_bytes(), Target::Time) == Err::<int, _>(e),
        },
{
    let dur = match duration(input.as_bytes()) {
        Ok(c) => c,
        Err(e) => {
            return Err(Error::ParserError(e));
        },
    };
    dur.try_into()
}

} // verus!
