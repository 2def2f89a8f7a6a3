//! Working through `Option` values.
use vstd::prelude::*;

use crate::decimal::{decimal_digits, format_u32, parse_u32, spec_parse_u32};
use crate::error_handling::spec_safe_parse;

verus! {

/// The number in decimal, when there is one.
pub fn number_to_string(n: Option<u32>) -> (r: Option<String>)
    ensures
        match n {
            Some(v) => r is Some && r->0@ == decimal_digits(v as nat),
            None => r is None,
        },
{
    match n {
        Some(v) => Some(format_u32(v)),
        None => None,
    }
}

/// The value `s` reads as, or the default `u32` (0) where it is no `u32`.
pub open spec fn spec_parse_or_zero(s: Seq<char>) -> u32 {
    match spec_parse_u32(s) {
        Ok(n) => n,
        Err(_) => 0,
    }
}

/// Reads `s` as a `u32`, falling back to the default value.
pub fn parse_or_zero(s: &str) -> (r: u32)
    ensures
        r == spec_parse_or_zero(s@),
{
    match parse_u32(s) {
        Ok(n) => n,
        Err(_) => 0,
    }
}

/// Falling back to the default and falling back to 0 read every text the same.
pub proof fn lemma_parse_or_zero_is_safe_parse(s: Seq<char>)
    ensures
        spec_parse_or_zero(s) == spec_safe_parse(s),
{
}

/// The numbers present in `numbers` that are multiples of three, in order.
pub open spec fn multiples_of_three(numbers: Seq<Option<u32>>) -> Seq<u32>
    decreases numbers.len(),
{
    if numbers.len() == 0 {
        Seq::empty()
    } else {
        let rest = multiples_of_three(numbers.drop_last());
        match numbers.last() {
            Some(v) => if v % 3 == 0 {
                rest.push(v)
            } else {
                rest
            },
            None => rest,
        }
    }
}

/// Collecting from two stretches one after the other gives the multiples of
/// the first, then those of the second, each in order.
pub proof fn lemma_multiples_concat(a: Seq<Option<u32>>, b: Seq<Option<u32>>)
    ensures
        multiples_of_three(a + b) == multiples_of_three(a) + multiples_of_three(b),
    decreases b.len(),
{
    if b.len() == 0 {
        assert(a + b =~= a);
        assert(multiples_of_three(a) + multiples_of_three(b) =~= multiples_of_three(a));
    } else {
        assert((a + b).drop_last() =~= a + b.drop_last());
        assert((a + b).last() == b.last());
        lemma_multiples_concat(a, b.drop_last());
        let ma = multiples_of_three(a);
        let mb0 = multiples_of_three(b.drop_last());
        if let Some(v) = b.last() {
            if v % 3 == 0 {
                assert((ma + mb0).push(v) =~= ma + mb0.push(v));
            }
        }
    }
}

/// A present number is listed exactly when three divides it; a missing one
/// never is.
pub proof fn lemma_multiples_single(x: Option<u32>)
    ensures
        multiples_of_three(seq![x]) == (match x {
            Some(v) => if v % 3 == 0 {
                seq![v]
            } else {
                Seq::<u32>::empty()
            },
            None => Seq::<u32>::empty(),
        }),
{
    assert(seq![x].drop_last() =~= Seq::<Option<u32>>::empty());
    assert(multiples_of_three(Seq::<Option<u32>>::empty()) =~= Seq::<u32>::empty());
    assert(seq![x].last() == x);
    if let Some(v) = x {
        if v % 3 == 0 {
            assert(Seq::<u32>::empty().push(v) =~= seq![v]);
        }
    }
}

/// Every listed number is a multiple of three present in the input, and every
/// present multiple of three is listed.
pub proof fn lemma_multiples_members(ns: Seq<Option<u32>>)
    ensures
        forall|k: int|
            0 <= k < multiples_of_three(ns).len() ==> #[trigger] multiples_of_three(ns)[k] % 3 == 0
                && ns.contains(Some(multiples_of_three(ns)[k])),
        forall|i: int|
            0 <= i < ns.len() && (#[trigger] ns[i] matches Some(v) && v % 3 == 0)
                ==> multiples_of_three(ns).contains(ns[i]->0),
    decreases ns.len(),
{
    if ns.len() > 0 {
        let init = ns.drop_last();
        lemma_multiples_members(init);
        let m = multiples_of_three(ns);
        let m0 = multiples_of_three(init);
        assert forall|k: int| 0 <= k < m.len() implies #[trigger] m[k] % 3 == 0 && ns.contains(
            Some(m[k]),
        ) by {
            if k < m0.len() {
                assert(m[k] == m0[k]);
                let j = choose|j: int| 0 <= j < init.len() && init[j] == Some(m0[k]);
                assert(ns[j] == init[j]);
            } else {
                assert(ns[ns.len() - 1] == Some(m[k]));
            }
        }
        assert forall|i: int|
            0 <= i < ns.len() && (#[trigger] ns[i] matches Some(v) && v % 3 == 0) implies m.contains(
            ns[i]->0,
        ) by {
            if i < init.len() {
                assert(init[i] == ns[i]);
                let k = choose|k: int| 0 <= k < m0.len() && m0[k] == init[i]->0;
                assert(m[k] == m0[k]);
            } else {
                assert(m[m.len() - 1] == ns[i]->0);
            }
        }
    }
}

/// The line that describes one multiple of three.
pub open spec fn divisible_line(v: u32) -> Seq<char> {
    "divisible by 3: "@ + decimal_digits(v as nat)
}

/// One line `divisible by 3: <n>` for each number present that three divides.
pub fn describe_multiples_of_three(numbers: &Vec<Option<u32>>) -> (lines: Vec<String>)
    ensures
        lines@.map_values(|l: String| l@) == multiples_of_three(numbers@).map_values(
            |v: u32| divisible_line(v),
        ),
{
    let mut lines: Vec<String> = Vec::new();
    let mut i: usize = 0;
    while i < numbers.len()
        invariant
            0 <= i <= numbers@.len(),
            lines@.map_values(|l: String| l@) == multiples_of_three(numbers@.take(i as int)).map_values(
                |v: u32| divisible_line(v),
            ),
        decreases numbers@.len() - i,
    {
        assert(numbers@.take(i + 1).drop_last() =~= numbers@.take(i as int));
        let ghost before = lines@.map_values(|l: String| l@);
        match numbers[i] {
            Some(v) => {
                if v % 3 == 0 {
                    let mut line = "divisible by 3: ".to_owned();
                    let digits = format_u32(v);
                    line.append(digits.as_str());
                    lines.push(line);
                    assert(lines@.map_values(|l: String| l@) =~= before.push(divisible_line(v)));
                }
            },
            None => {},
        }
        i = i + 1;
        assert(lines@.map_values(|l: String| l@) =~= multiples_of_three(
            numbers@.take(i as int),
        ).map_values(|v: u32| divisible_line(v)));
    }
    assert(numbers@.take(numbers@.len() as int) =~= numbers@);
    lines
}

} // verus!
