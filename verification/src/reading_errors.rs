//! A second set of reasons for failing to read a number, with their texts.
use vstd::prelude::*;

verus! {

/// Why a number could not be read: not a number, too big, or not given.
#[derive(Debug, Clone, Copy, PartialEq, Eq, Structural)]
pub enum ParseError {
    InvalidNumber,
    TooBig,
    Missing,
}

/// The text for each error.
pub open spec fn spec_reading_error_message(e: ParseError) -> Seq<char> {
    match e {
        ParseError::InvalidNumber => "invalid number"@,
        ParseError::TooBig => "number too big"@,
        ParseError::Missing => "missing value"@,
    }
}

impl ParseError {
    /// The text shown for this error.
    pub fn message(&self) -> (m: &'static str)
        ensures
            m@ == spec_reading_error_message(*self),
    {
        match self {
            ParseError::InvalidNumber => "invalid number",
            ParseError::TooBig => "number too big",
            ParseError::Missing => "missing value",
        }
    }
}

} // verus!
