//! A generic wrapper and a generic maximum.
use vstd::prelude::*;
use vstd::std_specs::cmp::{PartialOrdIs, PartialOrdSpec};

verus! {

/// Holds one value of any type.
pub struct Wrapper<T> {
    value: T,
}

impl<T> Wrapper<T> {
    /// The value held.
    pub closed spec fn held(&self) -> T {
        self.value
    }

    /// Wraps `value`.
    pub fn new(value: T) -> (w: Self)
        ensures
            w.held() == value,
    {
        Wrapper { value }
    }

    /// The value held, borrowed.
    pub fn value(&self) -> (r: &T)
        ensures
            *r == self.held(),
    {
        &self.value
    }
}

/// `a` when it compares greater than `b`, else `b`.
pub fn larger<T: PartialOrd>(a: T, b: T) -> (r: T)
    ensures
        T::obeys_partial_cmp_spec() ==> r == (if a.is_gt(&b) {
            a
        } else {
            b
        }),
{
    if a > b {
        a
    } else {
        b
    }
}

/// For integers, what `larger` promises to return is the usual maximum.
pub proof fn lemma_larger_i32(a: i32, b: i32)
    ensures
        (if a.is_gt(&b) {
            a
        } else {
            b
        }) == (if a > b {
            a
        } else {
            b
        }),
{
}

/// Wraps a text and a number and reads each back.
pub fn generics1_solution() {
    let w = Wrapper::new("hello");
    let v = w.value();
    assert(*v == "hello");
    let w = Wrapper::new(42i32);
    let n = w.value();
    assert(*n == 42);
}

/// Picks the larger of two integers.
pub fn generics2_solution() {
    let r = larger(3i32, 5i32);
    assert(r == 5);
}

} // verus!
