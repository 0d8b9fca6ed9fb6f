//! The ways in which reading fails, and the shape of what a reader comes to.

use vstd::prelude::*;

verus! {

/// Why a piece of sector text could not be read.
#[derive(Clone, Copy, Debug, PartialEq, Eq, Structural)]
pub enum ParseError {
    /// A tile header has no `": "` behind it, or its offsets are not exactly
    /// two parts around one `-`. The tile is skipped; the rest of the line is
    /// still read.
    MalformedHeader,
    /// No decimal digit stands where an integer is due, or the integer does
    /// not fit in 32 bits.
    MalformedNumber,
    /// A quoted string is not opened where one is due, or its closing quote
    /// is missing.
    UnterminatedString,
    /// An item attribute starts with none of the known keywords.
    UnknownKeyword,
    /// Containers are nested deeper than [`crate::content::MAX_DEPTH`].
    NestingTooDeep,
}

/// What reading at a cursor comes to, in contracts: either a value and the
/// cursor behind what was consumed, or an error and the cursor where reading
/// stopped.
pub enum Parsed<T> {
    Done { value: T, end: int },
    Failed { error: ParseError, at: int },
}

} // verus!
