//! Decimal text for `u32`: reading a value the way `str::parse::<u32>` does,
//! and writing one the way `u32::to_string` does.
use vstd::prelude::*;

use crate::text::{chars_of, push_char};

verus! {

/// Why a decimal `u32` could not be read: the three cases std reports for it.
#[derive(Debug, Clone, Copy, PartialEq, Eq, Structural)]
pub enum IntErrorKind {
    /// The text is empty.
    Empty,
    /// A character that is not an ASCII digit was met (a lone sign counts too).
    InvalidDigit,
    /// The digits read so far already exceed `u32::MAX`.
    PosOverflow,
}

/// The text std shows for each failure.
pub open spec fn spec_int_error_description(e: IntErrorKind) -> Seq<char> {
    match e {
        IntErrorKind::Empty => "cannot parse integer from empty string"@,
        IntErrorKind::InvalidDigit => "invalid digit found in string"@,
        IntErrorKind::PosOverflow => "number too large to fit in target type"@,
    }
}

impl IntErrorKind {
    /// The text std shows for the same failure.
    pub fn description(&self) -> (d: &'static str)
        ensures
            d@ == spec_int_error_description(*self),
    {
        match self {
            IntErrorKind::Empty => "cannot parse integer from empty string",
            IntErrorKind::InvalidDigit => "invalid digit found in string",
            IntErrorKind::PosOverflow => "number too large to fit in target type",
        }
    }
}

/// An ASCII decimal digit.
pub open spec fn is_digit(c: char) -> bool {
    '0' <= c && c <= '9'
}

/// The value of a digit character.
pub open spec fn digit_value(c: char) -> int {
    (c as int) - ('0' as int)
}

/// The character of a digit value 0 to 9.
pub open spec fn digit_char(d: int) -> char {
    (d + 48) as char
}

/// Reads `digits` from the left, stopping at the first character that is not a
/// digit or at the first prefix whose value passes `u32::MAX`.
pub open spec fn scan_digits(digits: Seq<char>) -> Result<int, IntErrorKind>
    decreases digits.len(),
{
    if digits.len() == 0 {
        Ok(0)
    } else {
        match scan_digits(digits.drop_last()) {
            Err(e) => Err(e),
            Ok(v) => {
                if !is_digit(digits.last()) {
                    Err(IntErrorKind::InvalidDigit)
                } else if 10 * v + digit_value(digits.last()) > u32::MAX {
                    Err(IntErrorKind::PosOverflow)
                } else {
                    Ok(10 * v + digit_value(digits.last()))
                }
            },
        }
    }
}

/// What reading `s` as a decimal `u32` gives: an optional `+`, then digits only.
pub open spec fn spec_parse_u32(s: Seq<char>) -> Result<u32, IntErrorKind> {
    if s.len() == 0 {
        Err(IntErrorKind::Empty)
    } else {
        let digits = if s[0] == '+' {
            s.drop_first()
        } else {
            s
        };
        if digits.len() == 0 {
            Err(IntErrorKind::InvalidDigit)
        } else {
            match scan_digits(digits) {
                Ok(v) => Ok(v as u32),
                Err(e) => Err(e),
            }
        }
    }
}

/// The shortest decimal spelling of `n`, most significant digit first.
pub open spec fn decimal_digits(n: nat) -> Seq<char>
    decreases n,
{
    if n < 10 {
        seq![digit_char(n as int)]
    } else {
        decimal_digits(n / 10).push(digit_char((n % 10) as int))
    }
}

/// Reads `s` as a decimal `u32`, exactly as `s.parse::<u32>()` does.
pub fn parse_u32(s: &str) -> (r: Result<u32, IntErrorKind>)
    ensures
        r == spec_parse_u32(s@),
{
    let cs = chars_of(s);
    let n = cs.len();
    if n == 0 {
        return Err(IntErrorKind::Empty);
    }
    let start: usize = if cs[0] == '+' {
        1
    } else {
        0
    };
    let ghost digits = if s@[0] == '+' {
        s@.drop_first()
    } else {
        s@
    };
    assert(digits =~= s@.subrange(start as int, n as int));
    if start == n {
        return Err(IntErrorKind::InvalidDigit);
    }
    let mut acc: u32 = 0;
    let mut i: usize = start;
    while i < n
        invariant
            start <= i <= n,
            n == cs@.len(),
            cs@ == s@,
            digits =~= s@.subrange(start as int, n as int),
            n > 0,
            digits == (if s@[0] == '+' {
                s@.drop_first()
            } else {
                s@
            }),
            scan_digits(digits.take(i - start)) == Ok::<int, IntErrorKind>(acc as int),
        decreases n - i,
    {
        let c = cs[i];
        assert(digits.take(i + 1 - start).drop_last() =~= digits.take(i - start));
        assert(digits.take(i + 1 - start).last() == c);
        if !('0' <= c && c <= '9') {
            assert(scan_digits(digits.take(i + 1 - start)) == Err::<int, IntErrorKind>(
                IntErrorKind::InvalidDigit,
            ));
            proof { lemma_scan_prefix_err(digits, (i + 1 - start) as int); }
            return Err(IntErrorKind::InvalidDigit);
        }
        let d: u32 = (c as u32) - ('0' as u32);
        if acc > 429496729 || (acc == 429496729 && d > 5) {
            assert(scan_digits(digits.take(i + 1 - start)) == Err::<int, IntErrorKind>(
                IntErrorKind::PosOverflow,
            ));
            proof { lemma_scan_prefix_err(digits, (i + 1 - start) as int); }
            return Err(IntErrorKind::PosOverflow);
        }
        acc = acc * 10 + d;
        i = i + 1;
    }
    assert(digits.take(n - start) =~= digits);
    Ok(acc)
}

/// Once reading a prefix of `digits` fails, reading all of it fails the same way.
proof fn lemma_scan_prefix_err(digits: Seq<char>, k: int)
    requires
        0 <= k <= digits.len(),
        scan_digits(digits.take(k)) is Err,
    ensures
        scan_digits(digits) == scan_digits(digits.take(k)),
    decreases digits.len() - k,
{
    if k < digits.len() {
        assert(digits.take(k + 1).drop_last() =~= digits.take(k));
        lemma_scan_prefix_err(digits, k + 1);
    } else {
        assert(digits.take(k) =~= digits);
    }
}

fn digit_to_char(d: u32) -> (c: char)
    requires
        d < 10,
    ensures
        c == digit_char(d as int),
{
    let b: u8 = (d as u8) + 48u8;
    b as char
}

fn append_decimal(n: u32, out: &mut String)
    ensures
        final(out)@ == old(out)@ + decimal_digits(n as nat),
    decreases n,
{
    if n >= 10 {
        append_decimal(n / 10, out);
    }
    let c = digit_to_char(n % 10);
    push_char(out, c);
    proof {
        if n >= 10 {
            assert(decimal_digits(n as nat) == decimal_digits((n / 10) as nat).push(c));
        } else {
            assert(decimal_digits(n as nat) == seq![c]);
        }
    }
}

/// Writes `n` in decimal, exactly as `n.to_string()` does.
pub fn format_u32(n: u32) -> (s: String)
    ensures
        s@ == decimal_digits(n as nat),
{
    let mut s = String::new();
    append_decimal(n, &mut s);
    assert(s@ =~= decimal_digits(n as nat));
    s
}

proof fn lemma_decimal_digits_scan(n: nat)
    requires
        n <= u32::MAX,
    ensures
        decimal_digits(n).len() > 0,
        is_digit(decimal_digits(n)[0]),
        scan_digits(decimal_digits(n)) == Ok::<int, IntErrorKind>(n as int),
    decreases n,
{
    if n < 10 {
        let s = decimal_digits(n);
        assert(s.drop_last() =~= Seq::<char>::empty());
        assert(scan_digits(s.drop_last()) == Ok::<int, IntErrorKind>(0));
        assert(s.last() == digit_char(n as int));
        assert(digit_value(digit_char(n as int)) == n);
        assert(is_digit(digit_char(n as int)));
    } else {
        lemma_decimal_digits_scan(n / 10);
        let s = decimal_digits(n);
        assert(s.drop_last() =~= decimal_digits(n / 10));
        assert(s.last() == digit_char((n % 10) as int));
        assert(digit_value(digit_char((n % 10) as int)) == n % 10);
        assert(is_digit(digit_char((n % 10) as int)));
        assert(10 * (n / 10) + n % 10 == n);
    }
}

/// Writing a number in decimal and reading it back gives the number again.
pub proof fn lemma_parse_format_roundtrip(n: u32)
    ensures
        spec_parse_u32(decimal_digits(n as nat)) == Ok::<u32, IntErrorKind>(n),
{
    lemma_decimal_digits_scan(n as nat);
}

} // verus!
