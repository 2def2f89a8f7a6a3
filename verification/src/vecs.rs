//! Changing every element of a vector in place.
use vstd::prelude::*;

verus! {

/// Doubles every element of `v`.
pub fn double_all(v: &mut Vec<i32>)
    requires
        forall|i: int| 0 <= i < old(v)@.len() ==> i32::MIN <= 2 * #[trigger] old(v)@[i] <= i32::MAX,
    ensures
        final(v)@.len() == old(v)@.len(),
        forall|i: int| 0 <= i < old(v)@.len() ==> #[trigger] final(v)@[i] == 2 * old(v)@[i],
{
    let ghost orig = v@;
    let mut i: usize = 0;
    while i < v.len()
        invariant
            0 <= i <= v@.len(),
            v@.len() == orig.len(),
            forall|j: int| 0 <= j < orig.len() ==> i32::MIN <= 2 * #[trigger] orig[j] <= i32::MAX,
            forall|j: int| 0 <= j < i ==> #[trigger] v@[j] == 2 * orig[j],
            forall|j: int| i <= j < v@.len() ==> #[trigger] v@[j] == orig[j],
        decreases v@.len() - i,
    {
        let x = v[i];
        v.set(i, x * 2);
        i = i + 1;
    }
}

} // verus!
