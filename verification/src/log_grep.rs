//! The filter behind `log-grep`: which lines of a log a regular expression
//! keeps, and how many.
use vstd::prelude::*;

use crate::text::line_views;

verus! {

/// `regex::Regex`, carried through as an opaque value.
#[verifier::external_type_specification]
#[verifier::external_body]
pub struct ExRegex(regex::Regex);

/// `regex::Error`, carried through as an opaque value.
#[verifier::external_type_specification]
#[verifier::external_body]
pub struct ExRegexError(regex::Error);

/// Whether `regex::Regex::new` accepts `pattern` (with its default size limits).
pub uninterp spec fn regex_compiles(pattern: Seq<char>) -> bool;

/// Whether the regular expression `pattern`, compiled by `regex::Regex::new`,
/// matches somewhere in `haystack` (`Regex::is_match`).
pub uninterp spec fn regex_is_match(pattern: Seq<char>, haystack: Seq<char>) -> bool;

/// Why a pattern was refused.
pub enum GrepError {
    /// `regex` did not accept the pattern; the error says why.
    InvalidPattern(regex::Error),
}

/// A compiled pattern together with the text it was compiled from. The two
/// fields are private and only `compile_line_pattern` fills them, so `regex`
/// is always the compilation of `source`.
pub struct LinePattern {
    source: String,
    regex: regex::Regex,
}

impl View for LinePattern {
    type V = Seq<char>;

    /// The pattern text.
    closed spec fn view(&self) -> Seq<char> {
        self.source@
    }
}

/// Calls `regex::Regex::new` and pairs the compiled regex with the pattern
/// text. Claimed: it succeeds exactly when `regex_compiles` holds of the
/// pattern text, and then the pattern's text is `pattern`. The error value
/// itself is not described.
#[verifier::external_body]
fn compile_line_pattern(pattern: &str) -> (r: Result<LinePattern, regex::Error>)
    ensures
        r is Ok <==> regex_compiles(pattern@),
        r matches Ok(p) ==> p@ == pattern@,
{
    match regex::Regex::new(pattern) {
        Ok(regex) => Ok(LinePattern { source: pattern.to_owned(), regex }),
        Err(e) => Err(e),
    }
}

impl LinePattern {
    /// Compiles `pattern`; refused exactly when `regex` refuses it.
    pub fn new(pattern: &str) -> (r: Result<LinePattern, GrepError>)
        ensures
            r is Ok <==> regex_compiles(pattern@),
            r matches Ok(p) ==> p@ == pattern@,
    {
        match compile_line_pattern(pattern) {
            Ok(p) => Ok(p),
            Err(e) => Err(GrepError::InvalidPattern(e)),
        }
    }

    /// Calls `Regex::is_match` on the compiled pattern. Claimed: the answer is
    /// `regex_is_match` of the pattern text and `line`, which holds because
    /// `regex` was compiled from `source` (see `compile_line_pattern`).
    #[verifier::external_body]
    fn matches(&self, line: &str) -> (b: bool)
        ensures
            b == regex_is_match(self@, line@),
    {
        self.regex.is_match(line)
    }
}

/// A line is kept when whether it matched differs from `invert`.
pub open spec fn is_kept(matched: bool, invert: bool) -> bool {
    matched != invert
}

/// The lines whose match flag says they are kept, in their order.
pub open spec fn kept_lines(lines: Seq<Seq<char>>, flags: Seq<bool>, invert: bool) -> Seq<Seq<char>>
    decreases lines.len(),
{
    if lines.len() == 0 || flags.len() == 0 {
        Seq::empty()
    } else {
        let rest = kept_lines(lines.drop_last(), flags.drop_last(), invert);
        if is_kept(flags.last(), invert) {
            rest.push(lines.last())
        } else {
            rest
        }
    }
}

/// How many of the flags say their line is kept.
pub open spec fn count_kept(flags: Seq<bool>, invert: bool) -> nat
    decreases flags.len(),
{
    if flags.len() == 0 {
        0
    } else {
        count_kept(flags.drop_last(), invert) + if is_kept(flags.last(), invert) {
            1nat
        } else {
            0nat
        }
    }
}

/// Whether each line matches `pattern`.
pub open spec fn match_flags(pattern: Seq<char>, lines: Seq<Seq<char>>) -> Seq<bool> {
    lines.map_values(|l: Seq<char>| regex_is_match(pattern, l))
}

/// Whether `line` is kept: it matches and `invert` is off, or it does not
/// match and `invert` is on.
pub fn line_selected(pattern: &LinePattern, line: &str, invert: bool) -> (b: bool)
    ensures
        b == is_kept(regex_is_match(pattern@, line@), invert),
{
    let matched = pattern.matches(line);
    matched != invert
}

/// Whether each of `lines` matches `pattern`.
pub fn line_flags(pattern: &LinePattern, lines: &Vec<String>) -> (flags: Vec<bool>)
    ensures
        flags@ == match_flags(pattern@, line_views(lines@)),
{
    let mut flags: Vec<bool> = Vec::new();
    let mut i: usize = 0;
    while i < lines.len()
        invariant
            0 <= i <= lines@.len(),
            flags@ == match_flags(pattern@, line_views(lines@)).take(i as int),
        decreases lines@.len() - i,
    {
        let m = pattern.matches(lines[i].as_str());
        flags.push(m);
        i = i + 1;
        assert(flags@ =~= match_flags(pattern@, line_views(lines@)).take(i as int));
    }
    assert(flags@ =~= match_flags(pattern@, line_views(lines@)));
    flags
}

/// How many flags say their line is kept.
pub fn count_selected(flags: &Vec<bool>, invert: bool) -> (n: usize)
    ensures
        n == count_kept(flags@, invert),
{
    let mut n: usize = 0;
    let mut i: usize = 0;
    while i < flags.len()
        invariant
            0 <= i <= flags@.len(),
            n == count_kept(flags@.take(i as int), invert),
            n <= i,
        decreases flags@.len() - i,
    {
        assert(flags@.take(i + 1).drop_last() =~= flags@.take(i as int));
        if flags[i] != invert {
            n = n + 1;
        }
        i = i + 1;
    }
    assert(flags@.take(flags@.len() as int) =~= flags@);
    n
}

/// The lines whose flag says they are kept, in their order.
pub fn keep_selected(lines: &Vec<String>, flags: &Vec<bool>, invert: bool) -> (kept: Vec<String>)
    requires
        lines@.len() == flags@.len(),
    ensures
        line_views(kept@) == kept_lines(line_views(lines@), flags@, invert),
{
    let ghost ls = line_views(lines@);
    let mut kept: Vec<String> = Vec::new();
    let mut i: usize = 0;
    while i < lines.len()
        invariant
            0 <= i <= lines@.len(),
            lines@.len() == flags@.len(),
            ls == line_views(lines@),
            line_views(kept@) == kept_lines(ls.take(i as int), flags@.take(i as int), invert),
        decreases lines@.len() - i,
    {
        assert(ls.take(i + 1).drop_last() =~= ls.take(i as int));
        assert(flags@.take(i + 1).drop_last() =~= flags@.take(i as int));
        let ghost before = line_views(kept@);
        if flags[i] != invert {
            kept.push(lines[i].clone());
            assert(line_views(kept@) =~= before.push(lines@[i as int]@));
        }
        i = i + 1;
    }
    assert(ls.take(lines@.len() as int) =~= ls);
    assert(flags@.take(lines@.len() as int) =~= flags@);
    kept
}

/// How many of `lines` are kept: those that match `pattern`, or with
/// `invert` those that do not.
pub fn count_matches(lines: &Vec<String>, pattern: &LinePattern, invert: bool) -> (n: usize)
    ensures
        n == count_kept(match_flags(pattern@, line_views(lines@)), invert),
{
    let flags = line_flags(pattern, lines);
    count_selected(&flags, invert)
}

/// The lines that are kept, in their order: those that match `pattern`, or
/// with `invert` those that do not.
pub fn select_lines(lines: &Vec<String>, pattern: &LinePattern, invert: bool) -> (kept: Vec<String>)
    ensures
        line_views(kept@) == kept_lines(
            line_views(lines@),
            match_flags(pattern@, line_views(lines@)),
            invert,
        ),
{
    let flags = line_flags(pattern, lines);
    keep_selected(lines, &flags, invert)
}

/// Every line is counted either with `invert` off or with it on, never both.
pub proof fn lemma_counts_complement(flags: Seq<bool>)
    ensures
        count_kept(flags, false) + count_kept(flags, true) == flags.len(),
    decreases flags.len(),
{
    if flags.len() > 0 {
        lemma_counts_complement(flags.drop_last());
    }
}

/// The lines that are kept are as many as the count says.
pub proof fn lemma_kept_len(lines: Seq<Seq<char>>, flags: Seq<bool>, invert: bool)
    requires
        lines.len() == flags.len(),
    ensures
        kept_lines(lines, flags, invert).len() == count_kept(flags, invert),
    decreases lines.len(),
{
    if lines.len() > 0 {
        lemma_kept_len(lines.drop_last(), flags.drop_last(), invert);
    }
}

/// Every kept line is one of the input lines whose flag says it is kept.
pub proof fn lemma_kept_from_input(lines: Seq<Seq<char>>, flags: Seq<bool>, invert: bool, k: int)
    requires
        lines.len() == flags.len(),
        0 <= k < kept_lines(lines, flags, invert).len(),
    ensures
        exists|i: int|
            0 <= i < lines.len() && lines[i] == kept_lines(lines, flags, invert)[k]
                && is_kept(#[trigger] flags[i], invert),
    decreases lines.len(),
{
    let rest = kept_lines(lines.drop_last(), flags.drop_last(), invert);
    if k < rest.len() {
        lemma_kept_from_input(lines.drop_last(), flags.drop_last(), invert, k);
        let i = choose|i: int|
            0 <= i < lines.drop_last().len() && lines.drop_last()[i] == rest[k] && is_kept(
                #[trigger] flags.drop_last()[i],
                invert,
            );
        assert(flags[i] == flags.drop_last()[i]);
    } else {
        let i = lines.len() - 1;
        assert(is_kept(flags[i], invert));
    }
}

/// Counting the lines `log-grep` keeps, with and without `-v`, adds up to all
/// the lines; and the lines it prints are exactly as many as it counts.
pub proof fn lemma_grep_counts(pattern: Seq<char>, lines: Seq<Seq<char>>, invert: bool)
    ensures
        count_kept(match_flags(pattern, lines), false) + count_kept(
            match_flags(pattern, lines),
            true,
        ) == lines.len(),
        kept_lines(lines, match_flags(pattern, lines), invert).len() == count_kept(
            match_flags(pattern, lines),
            invert,
        ),
{
    lemma_counts_complement(match_flags(pattern, lines));
    lemma_kept_len(lines, match_flags(pattern, lines), invert);
}

/// Selecting from two stretches of lines one after the other gives the lines
/// kept from the first stretch, then those kept from the second: the kept
/// lines stay in their input order.
pub proof fn lemma_kept_lines_concat(
    a: Seq<Seq<char>>,
    fa: Seq<bool>,
    b: Seq<Seq<char>>,
    fb: Seq<bool>,
    invert: bool,
)
    requires
        a.len() == fa.len(),
        b.len() == fb.len(),
    ensures
        kept_lines(a + b, fa + fb, invert) == kept_lines(a, fa, invert) + kept_lines(b, fb, invert),
    decreases b.len(),
{
    if b.len() == 0 {
        assert(a + b =~= a);
        assert(fa + fb =~= fa);
        assert(kept_lines(a, fa, invert) + kept_lines(b, fb, invert) =~= kept_lines(a, fa, invert));
    } else {
        assert((a + b).drop_last() =~= a + b.drop_last());
        assert((fa + fb).drop_last() =~= fa + fb.drop_last());
        assert((a + b).last() == b.last());
        assert((fa + fb).last() == fb.last());
        lemma_kept_lines_concat(a, fa, b.drop_last(), fb.drop_last(), invert);
        let ka = kept_lines(a, fa, invert);
        let kb0 = kept_lines(b.drop_last(), fb.drop_last(), invert);
        if fb.last() != invert {
            assert((ka + kb0).push(b.last()) =~= ka + kb0.push(b.last()));
        }
    }
}

/// A single line is kept exactly when whether it matched differs from
/// `invert`; it is kept as it is.
pub proof fn lemma_kept_lines_single(line: Seq<char>, matched: bool, invert: bool)
    ensures
        kept_lines(seq![line], seq![matched], invert) == (if matched != invert {
            seq![line]
        } else {
            Seq::<Seq<char>>::empty()
        }),
{
    assert(seq![line].drop_last() =~= Seq::<Seq<char>>::empty());
    assert(seq![matched].drop_last() =~= Seq::<bool>::empty());
    assert(kept_lines(Seq::<Seq<char>>::empty(), Seq::<bool>::empty(), invert) =~= Seq::<
        Seq<char>,
    >::empty());
    if matched != invert {
        assert(Seq::<Seq<char>>::empty().push(line) =~= seq![line]);
    }
}

/// Appending one more line to the input appends it to the kept lines exactly
/// when it is kept, and leaves the earlier kept lines as they were.
pub proof fn lemma_kept_lines_push(
    lines: Seq<Seq<char>>,
    flags: Seq<bool>,
    line: Seq<char>,
    matched: bool,
    invert: bool,
)
    requires
        lines.len() == flags.len(),
    ensures
        kept_lines(lines.push(line), flags.push(matched), invert) == kept_lines(lines, flags, invert)
            + (if matched != invert {
            seq![line]
        } else {
            Seq::<Seq<char>>::empty()
        }),
{
    assert(lines.push(line) =~= lines + seq![line]);
    assert(flags.push(matched) =~= flags + seq![matched]);
    lemma_kept_lines_concat(lines, flags, seq![line], seq![matched], invert);
    lemma_kept_lines_single(line, matched, invert);
}

/// Counting over two stretches of flags adds the two counts, and one flag
/// counts 1 exactly when it differs from `invert`.
pub proof fn lemma_count_kept_concat(fa: Seq<bool>, fb: Seq<bool>, invert: bool)
    ensures
        count_kept(fa + fb, invert) == count_kept(fa, invert) + count_kept(fb, invert),
        count_kept(seq![invert], invert) == 0,
        count_kept(seq![!invert], invert) == 1,
    decreases fb.len(),
{
    if fb.len() == 0 {
        assert(fa + fb =~= fa);
    } else {
        assert((fa + fb).drop_last() =~= fa + fb.drop_last());
        assert((fa + fb).last() == fb.last());
        lemma_count_kept_concat(fa, fb.drop_last(), invert);
    }
    assert(seq![invert].drop_last() =~= Seq::<bool>::empty());
    assert(seq![!invert].drop_last() =~= Seq::<bool>::empty());
    assert(count_kept(Seq::<bool>::empty(), invert) == 0);
    assert(seq![invert].last() == invert);
    assert(seq![!invert].last() == !invert);
}

} // verus!
