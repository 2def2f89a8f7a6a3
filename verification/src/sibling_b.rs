//! The sibling that forwards to `sibling_a`.
use vstd::prelude::*;

verus! {

/// The greeting word of the sibling module.
pub fn call() -> (r: &'static str)
    ensures
        r@ == "hello"@,
{
    crate::sibling_a::greet()
}

} // verus!
