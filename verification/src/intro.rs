//! A function that hands back an owned `String`.
use vstd::prelude::*;

verus! {

/// A fixed greeting, owned.
pub fn message() -> (m: String)
    ensures
        m@ == "Hello"@,
{
    "Hello".to_owned()
}

} // verus!
