//! What the usual iterator chains compute: map, filter, find, fold, collect.
use vstd::prelude::*;

verus! {

/// The squares of 1, 2, ..., n (`(1..=n).map(|x| x * x)`).
pub fn squares_up_to(n: i32) -> (v: Vec<i32>)
    requires
        n <= 46340,
    ensures
        v@.len() == (if n > 0 {
            n as int
        } else {
            0
        }),
        forall|i: int| 0 <= i < v@.len() ==> #[trigger] v@[i] == (i + 1) * (i + 1),
{
    let mut v: Vec<i32> = Vec::new();
    let mut x: i32 = 0;
    while x < n
        invariant
            0 <= x,
            n <= 46340,
            n <= 0 ==> x == 0,
            n > 0 ==> x <= n,
            v@.len() == x,
            forall|i: int| 0 <= i < v@.len() ==> #[trigger] v@[i] == (i + 1) * (i + 1),
        decreases n - x,
    {
        x = x + 1;
        assert(x * x <= 46340 * 46340) by (nonlinear_arith)
            requires
                1 <= x <= 46340,
        ;
        v.push(x * x);
    }
    v
}

/// The even numbers among 1, 2, ..., n, in order (`(1..=n).filter(|x| x % 2 == 0)`).
pub fn evens_up_to(n: i32) -> (v: Vec<i32>)
    ensures
        v@.len() == (if n > 0 {
            n / 2
        } else {
            0
        }),
        forall|i: int| 0 <= i < v@.len() ==> #[trigger] v@[i] == 2 * (i + 1),
{
    let mut v: Vec<i32> = Vec::new();
    let mut x: i32 = 0;
    while x < n
        invariant
            0 <= x,
            n <= 0 ==> x == 0,
            n > 0 ==> x <= n,
            v@.len() == x / 2,
            forall|i: int| 0 <= i < v@.len() ==> #[trigger] v@[i] == 2 * (i + 1),
        decreases n - x,
    {
        x = x + 1;
        if x % 2 == 0 {
            v.push(x);
        }
    }
    v
}

/// The first of `nums` that is greater than `bound` (`iter().find(..).copied()`).
pub fn first_greater_than(nums: &Vec<i32>, bound: i32) -> (r: Option<i32>)
    ensures
        match r {
            Some(x) => exists|i: int|
                0 <= i < nums@.len() && nums@[i] == x && x > bound && forall|j: int|
                    0 <= j < i ==> nums@[j] <= bound,
            None => forall|j: int| 0 <= j < nums@.len() ==> nums@[j] <= bound,
        },
{
    let mut i: usize = 0;
    while i < nums.len()
        invariant
            0 <= i <= nums@.len(),
            forall|j: int| 0 <= j < i ==> nums@[j] <= bound,
        decreases nums@.len() - i,
    {
        if nums[i] > bound {
            return Some(nums[i]);
        }
        i = i + 1;
    }
    None
}

/// The total length in bytes of `words`.
pub open spec fn total_byte_len(words: Seq<&str>) -> int
    decreases words.len(),
{
    if words.len() == 0 {
        0
    } else {
        total_byte_len(words.drop_last()) + words.last().len()
    }
}

/// Adds up the byte lengths of `words` (`fold(0, |acc, s| acc + s.len())`).
pub fn total_len(words: &[&str]) -> (n: usize)
    requires
        total_byte_len(words@) <= usize::MAX,
    ensures
        n == total_byte_len(words@),
{
    let mut n: usize = 0;
    let mut i: usize = 0;
    while i < words.len()
        invariant
            0 <= i <= words@.len(),
            total_byte_len(words@) <= usize::MAX,
            n == total_byte_len(words@.take(i as int)),
        decreases words@.len() - i,
    {
        assert(words@.take(i + 1).drop_last() =~= words@.take(i as int));
        proof { lemma_total_len_prefix(words@, i as int + 1); }
        n = n + words[i].len();
        i = i + 1;
    }
    assert(words@.take(words@.len() as int) =~= words@);
    n
}

proof fn lemma_total_len_prefix(words: Seq<&str>, k: int)
    requires
        0 <= k <= words.len(),
    ensures
        total_byte_len(words.take(k)) <= total_byte_len(words),
    decreases words.len() - k,
{
    if k < words.len() {
        assert(words.take(k + 1).drop_last() =~= words.take(k));
        lemma_total_len_prefix(words, k + 1);
    } else {
        assert(words.take(k) =~= words);
    }
}

/// All the values when every entry is `Ok`, else the first error, as
/// collecting into `Result<Vec<_>, _>` does.
pub open spec fn spec_collect<T, E>(results: Seq<Result<T, E>>) -> Result<Seq<T>, E>
    decreases results.len(),
{
    if results.len() == 0 {
        Ok(Seq::empty())
    } else {
        match spec_collect(results.drop_last()) {
            Err(e) => Err(e),
            Ok(vals) => match results.last() {
                Ok(x) => Ok(vals.push(x)),
                Err(e) => Err(e),
            },
        }
    }
}

proof fn lemma_collect_err_prefix<T, E>(results: Seq<Result<T, E>>, k: int)
    requires
        0 < k <= results.len(),
        spec_collect(results.take(k)) is Err,
    ensures
        spec_collect(results) == spec_collect(results.take(k)),
    decreases results.len() - k,
{
    if k < results.len() {
        assert(results.take(k + 1).drop_last() =~= results.take(k));
        lemma_collect_err_prefix(results, k + 1);
    } else {
        assert(results.take(k) =~= results);
    }
}

/// Collecting succeeds exactly when every entry is `Ok`, and then gives the
/// values in their order.
pub proof fn lemma_collect_all_ok<T, E>(results: Seq<Result<T, E>>)
    ensures
        spec_collect(results) is Ok <==> forall|i: int|
            0 <= i < results.len() ==> #[trigger] results[i] is Ok,
        spec_collect(results) matches Ok(vals) ==> vals.len() == results.len() && forall|i: int|
            0 <= i < results.len() ==> #[trigger] results[i] == Ok::<T, E>(vals[i]),
    decreases results.len(),
{
    if results.len() > 0 {
        let init = results.drop_last();
        lemma_collect_all_ok(init);
        if spec_collect(results) is Ok {
            assert forall|i: int| 0 <= i < results.len() implies #[trigger] results[i] is Ok by {
                if i < init.len() {
                    assert(init[i] == results[i]);
                }
            }
        } else {
            if spec_collect(init) is Ok {
                assert(!(results[results.len() - 1] is Ok));
            } else {
                let j = choose|j: int| 0 <= j < init.len() && !(#[trigger] init[j] is Ok);
                assert(results[j] == init[j]);
            }
        }
        if let Ok(vals) = spec_collect(results) {
            assert forall|i: int| 0 <= i < results.len() implies #[trigger] results[i] == Ok::<
                T,
                E,
            >(vals[i]) by {
                if i < init.len() {
                    assert(init[i] == results[i]);
                }
            }
        }
    }
}

/// All the values when every entry is `Ok`, else the first error.
pub fn collect_results<T: Copy, E: Copy>(results: &Vec<Result<T, E>>) -> (r: Result<Vec<T>, E>)
    ensures
        match (r, spec_collect(results@)) {
            (Ok(v), Ok(vals)) => v@ == vals,
            (Err(e), Err(e2)) => e == e2,
            _ => false,
        },
{
    let mut vals: Vec<T> = Vec::new();
    let mut i: usize = 0;
    assert(results@.take(0) =~= Seq::<Result<T, E>>::empty());
    while i < results.len()
        invariant
            0 <= i <= results@.len(),
            spec_collect(results@.take(i as int)) == Ok::<Seq<T>, E>(vals@),
        decreases results@.len() - i,
    {
        assert(results@.take(i + 1).drop_last() =~= results@.take(i as int));
        assert(results@.take(i + 1).last() == results@[i as int]);
        match results[i] {
            Ok(x) => {
                vals.push(x);
            },
            Err(e) => {
                proof { lemma_collect_err_prefix(results@, i as int + 1); }
                return Err(e);
            },
        }
        i = i + 1;
    }
    assert(results@.take(results@.len() as int) =~= results@);
    Ok(vals)
}

} // verus!
