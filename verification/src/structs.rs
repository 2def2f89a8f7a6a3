//! A struct with a method.
use vstd::prelude::*;

verus! {

/// A rectangle by its side lengths.
pub struct Rectangle {
    pub width: u32,
    pub height: u32,
}

impl Rectangle {
    /// Width times height.
    pub fn area(&self) -> (a: u32)
        requires
            self.width * self.height <= u32::MAX,
        ensures
            a == self.width * self.height,
    {
        self.width * self.height
    }
}

} // verus!
