//! The errors that parsing a time span can end in.

use vstd::prelude::*;

verus! {

/// What the grammar expected and did not find.
#[derive(Copy, Clone, Debug, PartialEq, Eq, Structural)]
pub enum ParseErrorKind {
    /// No number stands where a fragment has to begin.
    Number,
    /// The number is not followed by the spelling of a unit.
    Unit,
    /// A count of nanoseconds does not fit in 64 bits.
    TooLarge,
}

/// A failure of the grammar, with the byte offset at which it was found.
#[derive(Copy, Clone, Debug, PartialEq, Eq, Structural)]
pub struct ParseError {
    pub position: usize,
    pub kind: ParseErrorKind,
}

/// The error type of this library.
#[derive(Copy, Clone, Debug, PartialEq, Eq, Structural)]
pub enum Error {
    /// The time span cannot be held by the duration type asked for.
    DurationOverflow,
    /// The text is not a time span.
    ParserError(ParseError),
}

} // verus!
