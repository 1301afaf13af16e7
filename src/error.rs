use vstd::prelude::*;

verus! {

/// Why a line could not be read.
#[derive(Debug)]
pub enum Error {
    /// The digit field of a line marker does not fit in a `usize`; holds the digits.
    UsizeParseError(String),
    /// The line does not have the shape asked for; holds the line.
    LineFormatError(String),
}

} // verus!
