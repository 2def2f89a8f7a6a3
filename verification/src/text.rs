//! Characters and lines of text.
use vstd::prelude::*;

verus! {

/// The characters of `s`, in order.
pub fn chars_of(s: &str) -> (v: Vec<char>)
    ensures
        v@ == s@,
{
    let mut v: Vec<char> = Vec::new();
    for c in it: s.chars()
        invariant
            it.seq() == s@,
            v@ == it.seq().take(it.index() as int),
    {
        v.push(c);
    }
    v
}

/// Calls `String::push`. Claimed: afterwards `s` holds its old text with `c`
/// added at the end.
#[verifier::external_body]
pub(crate) fn push_char(s: &mut String, c: char)
    ensures
        final(s)@ == old(s)@.push(c),
{
    s.push(c);
}

/// The text made of the characters `cs`, in order.
pub fn string_of(cs: &Vec<char>) -> (s: String)
    ensures
        s@ == cs@,
{
    let mut s = String::new();
    let mut i: usize = 0;
    while i < cs.len()
        invariant
            0 <= i <= cs@.len(),
            s@ == cs@.take(i as int),
        decreases cs@.len() - i,
    {
        assert(cs@.take(i + 1) =~= cs@.take(i as int).push(cs@[i as int]));
        push_char(&mut s, cs[i]);
        i = i + 1;
    }
    assert(cs@.take(cs@.len() as int) =~= cs@);
    s
}

/// A line as it stands before its `\n`, without one `\r` that ends it.
pub open spec fn strip_cr(line: Seq<char>) -> Seq<char> {
    if line.len() > 0 && line.last() == '\r' {
        line.drop_last()
    } else {
        line
    }
}

/// The lines of `rest`, where `cur` holds what has been read of the current
/// line: a `\n` (or `\r\n`) ends a line, and a last line without one is kept
/// only when it is not empty.
pub open spec fn lines_from(rest: Seq<char>, cur: Seq<char>) -> Seq<Seq<char>>
    decreases rest.len(),
{
    if rest.len() == 0 {
        if cur.len() == 0 {
            Seq::empty()
        } else {
            seq![cur]
        }
    } else if rest[0] == '\n' {
        seq![strip_cr(cur)] + lines_from(rest.drop_first(), Seq::empty())
    } else {
        lines_from(rest.drop_first(), cur.push(rest[0]))
    }
}

/// The lines of `text`, as `str::lines` yields them.
pub open spec fn spec_lines(text: Seq<char>) -> Seq<Seq<char>> {
    lines_from(text, Seq::empty())
}

/// The texts held by `lines`.
pub open spec fn line_views(lines: Seq<String>) -> Seq<Seq<char>> {
    lines.map_values(|l: String| l@)
}

/// Splits `text` into its lines, as `str::lines` does.
pub fn split_lines(text: &str) -> (lines: Vec<String>)
    ensures
        line_views(lines@) == spec_lines(text@),
{
    let cs = chars_of(text);
    let mut lines: Vec<String> = Vec::new();
    let mut cur: Vec<char> = Vec::new();
    let mut i: usize = 0;
    assert(cs@.skip(0) =~= cs@);
    assert(line_views(lines@) + lines_from(cs@.skip(0), cur@) =~= spec_lines(
        text@,
    ));
    while i < cs.len()
        invariant
            0 <= i <= cs@.len(),
            cs@ == text@,
            line_views(lines@) + lines_from(cs@.skip(i as int), cur@)
                == spec_lines(text@),
        decreases cs@.len() - i,
    {
        let ghost rest = cs@.skip(i as int);
        assert(rest.drop_first() =~= cs@.skip(i + 1));
        assert(rest[0] == cs@[i as int]);
        let c = cs[i];
        let ghost old_cur = cur@;
        let ghost old_lines = line_views(lines@);
        if c == '\n' {
            let ghost stripped = strip_cr(old_cur);
            assert(lines_from(rest, old_cur) == seq![stripped] + lines_from(
                cs@.skip(i + 1),
                Seq::empty(),
            ));
            let n = cur.len();
            if n > 0 && cur[n - 1] == '\r' {
                cur.pop();
            }
            assert(cur@ =~= stripped);
            let line = string_of(&cur);
            lines.push(line);
            assert(line_views(lines@) =~= old_lines.push(stripped));
            cur = Vec::new();
            assert(old_lines.push(stripped) + lines_from(cs@.skip(i + 1), cur@) =~= old_lines + (
            seq![stripped] + lines_from(cs@.skip(i + 1), Seq::empty())));
        } else {
            assert(lines_from(rest, old_cur) == lines_from(cs@.skip(i + 1), old_cur.push(c)));
            cur.push(c);
        }
        i = i + 1;
    }
    let ghost old_lines = line_views(lines@);
    assert(cs@.skip(cs@.len() as int) =~= Seq::<char>::empty());
    if cur.len() > 0 {
        let line = string_of(&cur);
        lines.push(line);
        assert(line_views(lines@) =~= old_lines + seq![cur@]);
    } else {
        assert(old_lines + Seq::<Seq<char>>::empty() =~= old_lines);
    }
    lines
}

proof fn lemma_lines_from_no_newline(rest: Seq<char>, cur: Seq<char>)
    requires
        !cur.contains('\n'),
    ensures
        forall|i: int|
            0 <= i < lines_from(rest, cur).len() ==> !(#[trigger] lines_from(rest, cur)[i]).contains(
                '\n',
            ),
    decreases rest.len(),
{
    if rest.len() == 0 {
        if cur.len() > 0 {
            assert(lines_from(rest, cur) =~= seq![cur]);
        }
    } else if rest[0] == '\n' {
        let first = strip_cr(cur);
        assert(!first.contains('\n')) by {
            if first.contains('\n') {
                let k = choose|k: int| 0 <= k < first.len() && first[k] == '\n';
                assert(cur[k] == '\n');
            }
        }
        lemma_lines_from_no_newline(rest.drop_first(), Seq::empty());
        let tail = lines_from(rest.drop_first(), Seq::empty());
        assert forall|i: int| 0 <= i < lines_from(rest, cur).len() implies !(
        #[trigger] lines_from(rest, cur)[i]).contains('\n') by {
            if i > 0 {
                assert(lines_from(rest, cur)[i] == tail[i - 1]);
            }
        }
    } else {
        let next = cur.push(rest[0]);
        assert(!next.contains('\n')) by {
            if next.contains('\n') {
                let k = choose|k: int| 0 <= k < next.len() && next[k] == '\n';
                if k < cur.len() {
                    assert(cur[k] == '\n');
                }
            }
        }
        lemma_lines_from_no_newline(rest.drop_first(), next);
        assert(lines_from(rest, cur) == lines_from(rest.drop_first(), next));
    }
}

/// No line that `split_lines` yields holds a `\n`: line endings are left out.
pub proof fn lemma_lines_have_no_newline(text: Seq<char>)
    ensures
        forall|i: int|
            0 <= i < spec_lines(text).len() ==> !(#[trigger] spec_lines(text)[i]).contains('\n'),
{
    lemma_lines_from_no_newline(text, Seq::empty());
}

proof fn lemma_lines_from_final_newline(rest: Seq<char>, cur: Seq<char>)
    requires
        (rest.len() > 0 && rest.last() != '\n' && rest.last() != '\r') || (rest.len() == 0
            && cur.len() > 0 && cur.last() != '\r'),
    ensures
        lines_from(rest + seq!['\n'], cur) == lines_from(rest, cur),
    decreases rest.len(),
{
    let ext = rest + seq!['\n'];
    if rest.len() == 0 {
        assert(ext =~= seq!['\n']);
        assert(ext.drop_first() =~= Seq::<char>::empty());
        assert(lines_from(ext.drop_first(), Seq::empty()) =~= Seq::<Seq<char>>::empty());
        assert(lines_from(ext, cur) =~= seq![strip_cr(cur)] + Seq::<Seq<char>>::empty());
        assert(lines_from(ext, cur) =~= seq![cur]);
    } else {
        assert(ext[0] == rest[0]);
        assert(ext.drop_first() =~= rest.drop_first() + seq!['\n']);
        if rest[0] == '\n' {
            lemma_lines_from_final_newline(rest.drop_first(), Seq::empty());
        } else {
            lemma_lines_from_final_newline(rest.drop_first(), cur.push(rest[0]));
        }
    }
}

proof fn lemma_lines_from_final_crlf(rest: Seq<char>, cur: Seq<char>)
    requires
        (rest.len() > 0 && rest.last() != '\n') || (rest.len() == 0 && cur.len() > 0),
    ensures
        lines_from(rest + seq!['\r', '\n'], cur) == lines_from(rest, cur),
    decreases rest.len(),
{
    let ext = rest + seq!['\r', '\n'];
    if rest.len() == 0 {
        assert(ext =~= seq!['\r', '\n']);
        assert(ext.drop_first() =~= seq!['\n']);
        assert(ext.drop_first().drop_first() =~= Seq::<char>::empty());
        assert(cur.push('\r').drop_last() =~= cur);
        assert(ext[0] == '\r');
        assert(lines_from(ext, cur) == lines_from(ext.drop_first(), cur.push('\r')));
        assert(ext.drop_first()[0] == '\n');
        assert(lines_from(ext.drop_first().drop_first(), Seq::empty()) =~= Seq::<Seq<char>>::empty());
        assert(lines_from(ext.drop_first(), cur.push('\r')) =~= seq![strip_cr(cur.push('\r'))]
            + Seq::<Seq<char>>::empty());
        assert(lines_from(ext, cur) =~= seq![cur]);
    } else {
        assert(ext[0] == rest[0]);
        assert(ext.drop_first() =~= rest.drop_first() + seq!['\r', '\n']);
        if rest[0] == '\n' {
            lemma_lines_from_final_crlf(rest.drop_first(), Seq::empty());
        } else {
            lemma_lines_from_final_crlf(rest.drop_first(), cur.push(rest[0]));
        }
    }
}

/// A text that ends with a line ending (`\n` or `\r\n`) has the same lines as
/// the text without it.
pub proof fn lemma_final_line_ending_optional(text: Seq<char>)
    requires
        text.len() > 0,
        text.last() != '\n',
    ensures
        text.last() != '\r' ==> spec_lines(text + seq!['\n']) == spec_lines(text),
        spec_lines(text + seq!['\r', '\n']) == spec_lines(text),
{
    if text.last() != '\r' {
        lemma_lines_from_final_newline(text, Seq::empty());
    }
    lemma_lines_from_final_crlf(text, Seq::empty());
}

} // verus!
