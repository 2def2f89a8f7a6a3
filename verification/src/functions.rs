//! Plain functions on integers.
use vstd::prelude::*;

verus! {

/// The product of `x` and `y`.
pub fn fizz(x: i32, y: i32) -> (r: i32)
    requires
        i32::MIN <= x * y <= i32::MAX,
    ensures
        r == x * y,
{
    x * y
}

/// `num` squared.
pub fn square(num: i32) -> (r: i32)
    requires
        num * num <= i32::MAX,
    ensures
        r == num * num,
{
    assert(num * num >= 0) by (nonlinear_arith);
    num * num
}

/// `n`, but never more than ten.
pub fn count_to_ten(n: i32) -> (r: i32)
    ensures
        r == (if n >= 10 {
            10
        } else {
            n
        }),
{
    if n >= 10 {
        return 10;
    }
    n
}

} // verus!
