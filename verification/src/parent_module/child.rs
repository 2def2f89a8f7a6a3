//! The nested module's only function.
use vstd::prelude::*;

verus! {

/// The answer.
pub fn answer() -> (r: i32)
    ensures
        r == 42,
{
    42
}

} // verus!
