//! The sibling that greets.
use vstd::prelude::*;

verus! {

/// A greeting word.
pub fn greet() -> (r: &'static str)
    ensures
        r@ == "hello"@,
{
    "hello"
}

} // verus!
