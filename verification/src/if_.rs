//! Choosing with `if` / `else if` / `else`.
use vstd::prelude::*;

verus! {

/// The word for the sign of `n`.
pub open spec fn spec_number_type(n: i32) -> Seq<char> {
    if n > 0 {
        "positive"@
    } else if n == 0 {
        "zero"@
    } else {
        "negative"@
    }
}

/// Whether `n` is positive, zero or negative, as a word.
pub fn number_type(n: i32) -> (r: &'static str)
    ensures
        r@ == spec_number_type(n),
{
    if n > 0 {
        "positive"
    } else if n == 0 {
        "zero"
    } else {
        "negative"
    }
}

} // verus!
