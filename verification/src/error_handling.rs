//! Turning text into numbers while reporting why it failed.
use vstd::prelude::*;

use crate::decimal::{
    IntErrorKind, decimal_digits, lemma_parse_format_roundtrip, parse_u32, spec_parse_u32,
};
use crate::text::{line_views, spec_lines, split_lines};

verus! {

/// Why a small number could not be read.
#[derive(Debug, Clone, Copy, PartialEq, Eq, Structural)]
pub enum ParseError {
    Empty,
    TooBig,
    NotNumber,
}

/// The text for each error.
pub open spec fn spec_parse_error_message(e: ParseError) -> Seq<char> {
    match e {
        ParseError::Empty => "input is empty"@,
        ParseError::TooBig => "number is too big"@,
        ParseError::NotNumber => "not a number"@,
    }
}

impl ParseError {
    /// The text shown for this error.
    pub fn message(&self) -> (m: &'static str)
        ensures
            m@ == spec_parse_error_message(*self),
    {
        match self {
            ParseError::Empty => "input is empty",
            ParseError::TooBig => "number is too big",
            ParseError::NotNumber => "not a number",
        }
    }
}

/// The value `s` reads as, or 0 where it is no `u32`.
pub open spec fn spec_safe_parse(s: Seq<char>) -> u32 {
    match spec_parse_u32(s) {
        Ok(n) => n,
        Err(_) => 0,
    }
}

/// Reads `s` as a `u32`, falling back to 0.
pub fn safe_parse(s: &str) -> (r: u32)
    ensures
        r == spec_safe_parse(s@),
{
    match parse_u32(s) {
        Ok(n) => n,
        Err(_) => 0,
    }
}

/// A number up to 100, read from non-empty text.
pub open spec fn spec_parse_small_number(s: Seq<char>) -> Result<u32, ParseError> {
    if s.len() == 0 {
        Err(ParseError::Empty)
    } else {
        match spec_parse_u32(s) {
            Err(_) => Err(ParseError::NotNumber),
            Ok(n) => if n > 100 {
                Err(ParseError::TooBig)
            } else {
                Ok(n)
            },
        }
    }
}

/// Reads a number up to 100 from non-empty text.
pub fn parse_small_number(s: &str) -> (r: Result<u32, ParseError>)
    ensures
        r == spec_parse_small_number(s@),
{
    if s.is_empty() {
        return Err(ParseError::Empty);
    }
    let n = match parse_u32(s) {
        Ok(n) => n,
        Err(_) => return Err(ParseError::NotNumber),
    };
    if n > 100 {
        return Err(ParseError::TooBig);
    }
    Ok(n)
}

/// Reads a width and a height from the first two entries of `values`; an
/// unreadable first entry is reported before the second one is looked at.
pub fn read_config(values: &[&str]) -> (r: Result<(u32, u32), ParseError>)
    requires
        values@.len() >= 2 || (values@.len() == 1 && spec_parse_u32(values@[0]@) is Err),
    ensures
        r == (match spec_parse_u32(values@[0]@) {
            Err(_) => Err(ParseError::NotNumber),
            Ok(w) => match spec_parse_u32(values@[1]@) {
                Ok(h) => Ok((w, h)),
                Err(_) => Err(ParseError::NotNumber),
            },
        }),
{
    let width = match parse_u32(values[0]) {
        Ok(n) => n,
        Err(_) => return Err(ParseError::NotNumber),
    };
    let height = match parse_u32(values[1]) {
        Ok(n) => n,
        Err(_) => return Err(ParseError::NotNumber),
    };
    Ok((width, height))
}

/// A number up to 100 from text that may be missing.
pub open spec fn spec_parse_optional(s: Option<Seq<char>>) -> Result<u32, ParseError> {
    match s {
        None => Err(ParseError::Empty),
        Some(t) => match spec_parse_u32(t) {
            Err(_) => Err(ParseError::NotNumber),
            Ok(n) => if n > 100 {
                Err(ParseError::TooBig)
            } else {
                Ok(n)
            },
        },
    }
}

/// Like `parse_small_number`, where a missing input counts as empty.
pub fn parse_optional(s: Option<&str>) -> (r: Result<u32, ParseError>)
    ensures
        r == spec_parse_optional(
            match s {
                Some(t) => Some(t@),
                None => None,
            },
        ),
{
    let text = match s {
        Some(t) => t,
        None => return Err(ParseError::Empty),
    };
    let n = match parse_u32(text) {
        Ok(n) => n,
        Err(_) => return Err(ParseError::NotNumber),
    };
    if n > 100 {
        Err(ParseError::TooBig)
    } else {
        Ok(n)
    }
}

/// Twice a number up to 50.
pub open spec fn spec_double_if_small(s: Seq<char>) -> Result<u32, ParseError> {
    match spec_parse_u32(s) {
        Err(_) => Err(ParseError::NotNumber),
        Ok(n) => if n > 50 {
            Err(ParseError::TooBig)
        } else {
            Ok((2 * n) as u32)
        },
    }
}

/// Twice the number in `s`, for numbers up to 50.
pub fn double_if_small(s: &str) -> (r: Result<u32, ParseError>)
    ensures
        r == spec_double_if_small(s@),
{
    let n = match parse_u32(s) {
        Ok(n) => n,
        Err(_) => return Err(ParseError::NotNumber),
    };
    if n > 50 {
        return Err(ParseError::TooBig);
    }
    Ok(n * 2)
}

/// A text that reads as a number up to 100 is accepted with that number; a
/// larger number is refused as too big; text that is no number is refused as
/// such; only empty text is refused as empty.
pub proof fn lemma_small_number_accepts(s: Seq<char>, n: u32)
    ensures
        spec_parse_u32(s) == Ok::<u32, IntErrorKind>(n) && n <= 100 ==> spec_parse_small_number(s) == Ok::<
            u32,
            ParseError,
        >(n),
        spec_parse_u32(s) == Ok::<u32, IntErrorKind>(n) && n > 100 ==> spec_parse_small_number(s) == Err::<
            u32,
            ParseError,
        >(ParseError::TooBig),
        s.len() > 0 && spec_parse_u32(s) is Err ==> spec_parse_small_number(s) == Err::<
            u32,
            ParseError,
        >(ParseError::NotNumber),
        s.len() == 0 <==> spec_parse_small_number(s) == Err::<u32, ParseError>(ParseError::Empty),
        spec_parse_u32(s) == Ok::<u32, IntErrorKind>(n) && n <= 100 ==> spec_parse_optional(Some(s)) == Ok::<
            u32,
            ParseError,
        >(n),
        spec_parse_u32(s) == Ok::<u32, IntErrorKind>(n) && n > 100 ==> spec_parse_optional(Some(s)) == Err::<
            u32,
            ParseError,
        >(ParseError::TooBig),
        spec_parse_u32(s) is Err ==> spec_parse_optional(Some(s)) == Err::<u32, ParseError>(
            ParseError::NotNumber,
        ),
        spec_parse_optional(None) == Err::<u32, ParseError>(ParseError::Empty),
{
}

/// Every number up to 100, written in decimal, is read back by
/// `parse_small_number` and `parse_optional`; every larger one is too big.
pub proof fn lemma_small_number_decimal(n: u32)
    ensures
        n <= 100 ==> spec_parse_small_number(decimal_digits(n as nat)) == Ok::<u32, ParseError>(n),
        n <= 100 ==> spec_parse_optional(Some(decimal_digits(n as nat))) == Ok::<u32, ParseError>(
            n,
        ),
        n > 100 ==> spec_parse_small_number(decimal_digits(n as nat)) == Err::<u32, ParseError>(
            ParseError::TooBig,
        ),
{
    lemma_parse_format_roundtrip(n);
    lemma_small_number_accepts(decimal_digits(n as nat), n);
}

/// A number up to 50 is doubled, a larger one is too big, and text that is no
/// number is refused as such.
pub proof fn lemma_double_if_small_doubles(s: Seq<char>, n: u32)
    ensures
        spec_parse_u32(s) == Ok::<u32, IntErrorKind>(n) && n <= 50 ==> spec_double_if_small(s) == Ok::<
            u32,
            ParseError,
        >((2 * n) as u32),
        spec_parse_u32(s) == Ok::<u32, IntErrorKind>(n) && n > 50 ==> spec_double_if_small(s) == Err::<
            u32,
            ParseError,
        >(ParseError::TooBig),
        spec_parse_u32(s) is Err ==> spec_double_if_small(s) == Err::<u32, ParseError>(
            ParseError::NotNumber,
        ),
        spec_double_if_small(s) matches Ok(m) ==> spec_parse_u32(s) matches Ok(k) && m == 2 * k,
{
}

/// Every number up to 50, written in decimal, comes back doubled.
pub proof fn lemma_double_if_small_decimal(n: u32)
    requires
        n <= 50,
    ensures
        spec_double_if_small(decimal_digits(n as nat)) == Ok::<u32, ParseError>((2 * n) as u32),
{
    lemma_parse_format_roundtrip(n);
    lemma_double_if_small_doubles(decimal_digits(n as nat), n);
}

/// For text that is there, an optional input is read the same way as a plain one.
pub proof fn lemma_parse_optional_agrees(s: Seq<char>)
    requires
        s.len() > 0,
    ensures
        spec_parse_optional(Some(s)) == spec_parse_small_number(s),
{
}

/// Whatever `parse_small_number` accepts is at most 100, and whatever
/// `double_if_small` gives is even and at most 100.
pub proof fn lemma_small_results_bounded(s: Seq<char>)
    ensures
        spec_parse_small_number(s) matches Ok(n) ==> n <= 100,
        spec_parse_optional(Some(s)) matches Ok(n) ==> n <= 100,
        spec_double_if_small(s) matches Ok(m) ==> m <= 100 && m % 2 == 0,
{
}

/// The running total of the values on `lines`, read left to right; the first
/// line that is no `u32` stops it.
pub open spec fn spec_sum_lines(lines: Seq<Seq<char>>) -> Result<int, IntErrorKind>
    decreases lines.len(),
{
    if lines.len() == 0 {
        Ok(0)
    } else {
        match spec_sum_lines(lines.drop_last()) {
            Err(e) => Err(e),
            Ok(t) => match spec_parse_u32(lines.last()) {
                Err(e) => Err(e),
                Ok(v) => Ok(t + v),
            },
        }
    }
}

/// No running total on the way passes `u32::MAX`.
pub open spec fn sum_stays_in_range(lines: Seq<Seq<char>>) -> bool {
    forall|k: int|
        0 <= k <= lines.len() ==> (#[trigger] spec_sum_lines(lines.take(k)) matches Ok(t)
            ==> t <= u32::MAX)
}

/// Tells whether adding up `lines` would pass `u32::MAX` before it stops.
pub fn sum_overflows(lines: &Vec<String>) -> (b: bool)
    ensures
        b == !sum_stays_in_range(line_views(lines@)),
{
    let ghost ls = line_views(lines@);
    let mut total: u32 = 0;
    let mut i: usize = 0;
    assert(ls.take(0) =~= Seq::<Seq<char>>::empty());
    while i < lines.len()
        invariant
            0 <= i <= lines@.len(),
            ls == line_views(lines@),
            spec_sum_lines(ls.take(i as int)) == Ok::<int, IntErrorKind>(total as int),
            forall|k: int| 0 <= k <= i ==> (#[trigger] spec_sum_lines(ls.take(k)) matches Ok(t)
                ==> t <= u32::MAX),
        decreases lines@.len() - i,
    {
        assert(ls.take(i + 1).drop_last() =~= ls.take(i as int));
        assert(ls.take(i + 1).last() == lines@[i as int]@);
        match parse_u32(lines[i].as_str()) {
            Err(_) => {
                proof { lemma_sum_stops(ls, i as int + 1); }
                return false;
            },
            Ok(v) => {
                if total > u32::MAX - v {
                    assert(spec_sum_lines(ls.take(i + 1)) == Ok::<int, IntErrorKind>(total + v));
                    return true;
                }
                total = total + v;
            },
        }
        i = i + 1;
    }
    assert(ls.take(lines@.len() as int) =~= ls);
    proof {
        assert forall|k: int| 0 <= k <= ls.len() implies (#[trigger] spec_sum_lines(ls.take(k)) matches Ok(t)
            ==> t <= u32::MAX) by {}
    }
    false
}

/// After the sum stops at line `k - 1`, every longer prefix stops the same way.
proof fn lemma_sum_stops(ls: Seq<Seq<char>>, k: int)
    requires
        0 < k <= ls.len(),
        spec_sum_lines(ls.take(k)) is Err,
        forall|j: int| 0 <= j < k ==> (#[trigger] spec_sum_lines(ls.take(j)) matches Ok(t)
            ==> t <= u32::MAX),
    ensures
        forall|j: int| 0 <= j <= ls.len() ==> (#[trigger] spec_sum_lines(ls.take(j)) matches Ok(t)
            ==> t <= u32::MAX),
        spec_sum_lines(ls) == spec_sum_lines(ls.take(k)),
    decreases ls.len() - k,
{
    if k < ls.len() {
        assert(ls.take(k + 1).drop_last() =~= ls.take(k));
        lemma_sum_stops(ls, k + 1);
    } else {
        assert(ls.take(k) =~= ls);
        assert forall|j: int| 0 <= j <= ls.len() implies (#[trigger] spec_sum_lines(ls.take(j)) matches Ok(t)
            ==> t <= u32::MAX) by {
            if j == ls.len() {
                assert(ls.take(j) =~= ls.take(k));
            }
        }
    }
}

/// The total of two stretches of lines read one after the other is the sum
/// of their totals when both read cleanly; otherwise the first error met, in
/// the first stretch before the second.
pub proof fn lemma_sum_lines_concat(a: Seq<Seq<char>>, b: Seq<Seq<char>>)
    ensures
        spec_sum_lines(a + b) == (match spec_sum_lines(a) {
            Err(e) => Err(e),
            Ok(ta) => match spec_sum_lines(b) {
                Err(e) => Err(e),
                Ok(tb) => Ok::<int, IntErrorKind>(ta + tb),
            },
        }),
    decreases b.len(),
{
    if b.len() == 0 {
        assert(a + b =~= a);
    } else {
        assert((a + b).drop_last() =~= a + b.drop_last());
        assert((a + b).last() == b.last());
        lemma_sum_lines_concat(a, b.drop_last());
    }
}

/// One line totals to the value it reads as, or fails as reading it fails.
pub proof fn lemma_sum_lines_single(line: Seq<char>)
    ensures
        spec_sum_lines(seq![line]) == (match spec_parse_u32(line) {
            Ok(v) => Ok::<int, IntErrorKind>(v as int),
            Err(e) => Err(e),
        }),
{
    assert(seq![line].drop_last() =~= Seq::<Seq<char>>::empty());
    assert(spec_sum_lines(Seq::<Seq<char>>::empty()) == Ok::<int, IntErrorKind>(0));
    assert(seq![line].last() == line);
}

/// One more line that reads as `v` adds `v` to a clean total, whatever the
/// lines before it hold.
pub proof fn lemma_sum_lines_push(lines: Seq<Seq<char>>, line: Seq<char>, t: int, v: u32)
    requires
        spec_sum_lines(lines) == Ok::<int, IntErrorKind>(t),
        spec_parse_u32(line) == Ok::<u32, IntErrorKind>(v),
    ensures
        spec_sum_lines(lines.push(line)) == Ok::<int, IntErrorKind>(t + v),
{
    assert(lines.push(line) =~= lines + seq![line]);
    lemma_sum_lines_concat(lines, seq![line]);
    lemma_sum_lines_single(line);
}

/// Adds up the numbers on `lines`; the first line that is no `u32` gives its error.
pub fn sum_lines(lines: &Vec<String>) -> (r: Result<u32, IntErrorKind>)
    requires
        sum_stays_in_range(line_views(lines@)),
    ensures
        r == (match spec_sum_lines(line_views(lines@)) {
            Ok(t) => Ok(t as u32),
            Err(e) => Err::<u32, IntErrorKind>(e),
        }),
{
    let ghost ls = line_views(lines@);
    let mut sum: u32 = 0;
    let mut i: usize = 0;
    assert(ls.take(0) =~= Seq::<Seq<char>>::empty());
    while i < lines.len()
        invariant
            0 <= i <= lines@.len(),
            ls == line_views(lines@),
            sum_stays_in_range(ls),
            spec_sum_lines(ls.take(i as int)) == Ok::<int, IntErrorKind>(sum as int),
        decreases lines@.len() - i,
    {
        assert(ls.take(i + 1).drop_last() =~= ls.take(i as int));
        assert(ls.take(i + 1).last() == lines@[i as int]@);
        let value = match parse_u32(lines[i].as_str()) {
            Ok(v) => v,
            Err(e) => {
                proof { lemma_sum_err_prefix(ls, i as int + 1); }
                return Err(e);
            },
        };
        assert(spec_sum_lines(ls.take(i + 1)) == Ok::<int, IntErrorKind>(sum + value));
        assert(sum + value <= u32::MAX);
        sum = sum + value;
        i = i + 1;
    }
    assert(ls.take(lines@.len() as int) =~= ls);
    Ok(sum)
}

/// Adds up the numbers on the lines of `contents`, one number per line.
pub fn sum_text(contents: &str) -> (r: Result<u32, IntErrorKind>)
    requires
        sum_stays_in_range(spec_lines(contents@)),
    ensures
        r == (match spec_sum_lines(spec_lines(contents@)) {
            Ok(t) => Ok(t as u32),
            Err(e) => Err::<u32, IntErrorKind>(e),
        }),
{
    let lines = split_lines(contents);
    sum_lines(&lines)
}

proof fn lemma_sum_err_prefix(ls: Seq<Seq<char>>, k: int)
    requires
        0 < k <= ls.len(),
        spec_sum_lines(ls.take(k)) is Err,
    ensures
        spec_sum_lines(ls) == spec_sum_lines(ls.take(k)),
    decreases ls.len() - k,
{
    if k < ls.len() {
        assert(ls.take(k + 1).drop_last() =~= ls.take(k));
        lemma_sum_err_prefix(ls, k + 1);
    } else {
        assert(ls.take(k) =~= ls);
    }
}

} // verus!
