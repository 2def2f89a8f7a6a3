//! Checked conversion from `i64` into a non-negative `u32`.
use vstd::prelude::*;
use vstd::std_specs::convert::TryFromSpecImpl;

verus! {

/// A number that fits in a `u32`.
#[derive(Debug, Clone, Copy, PartialEq, Eq, Structural)]
pub struct PositiveU32(pub u32);

/// Why an `i64` is no `PositiveU32`.
#[derive(Debug, Clone, Copy, PartialEq, Eq, Structural)]
pub enum PositiveError {
    Negative,
    TooLarge,
}

/// The text for each conversion error.
pub open spec fn spec_positive_error_message(e: PositiveError) -> Seq<char> {
    match e {
        PositiveError::Negative => "value is negative"@,
        PositiveError::TooLarge => "value does not fit in u32"@,
    }
}

impl PositiveError {
    /// The text shown for this error.
    pub fn message(&self) -> (m: &'static str)
        ensures
            m@ == spec_positive_error_message(*self),
    {
        match self {
            PositiveError::Negative => "value is negative",
            PositiveError::TooLarge => "value does not fit in u32",
        }
    }
}

/// The conversion: negative values and values above `u32::MAX` are refused.
pub open spec fn spec_positive_from(value: i64) -> Result<PositiveU32, PositiveError> {
    if value < 0 {
        Err(PositiveError::Negative)
    } else if value > u32::MAX {
        Err(PositiveError::TooLarge)
    } else {
        Ok(PositiveU32(value as u32))
    }
}

impl TryFrom<i64> for PositiveU32 {
    type Error = PositiveError;

    fn try_from(value: i64) -> (r: Result<Self, Self::Error>) {
        if value < 0 {
            Err(PositiveError::Negative)
        } else if value > 4294967295i64 {
            Err(PositiveError::TooLarge)
        } else {
            Ok(PositiveU32(value as u32))
        }
    }
}

impl TryFromSpecImpl<i64> for PositiveU32 {
    open spec fn obeys_try_from_spec() -> bool {
        true
    }

    open spec fn try_from_spec(v: i64) -> Result<Self, Self::Error> {
        spec_positive_from(v)
    }
}

/// Every `u32`, widened to `i64`, converts back to itself.
pub proof fn lemma_positive_roundtrip(n: u32)
    ensures
        spec_positive_from(n as i64) == Ok::<PositiveU32, PositiveError>(PositiveU32(n)),
{
}

} // verus!
