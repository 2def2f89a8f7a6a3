//! The idiomatic test for a present value.
use vstd::prelude::*;

verus! {

/// Whether a value is present.
pub fn is_some(x: Option<i32>) -> (b: bool)
    ensures
        b == x is Some,
{
    x.is_some()
}

} // verus!
