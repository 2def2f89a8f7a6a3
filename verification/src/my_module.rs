//! A function made visible outside its module.
use vstd::prelude::*;

verus! {

/// A fixed word, reachable from outside the module.
pub fn private_function() -> (r: &'static str)
    ensures
        r@ == "private"@,
{
    "private"
}

} // verus!
