//! Functions and a struct that hand back borrowed text.
use vstd::prelude::*;

use crate::text::chars_of;

verus! {

/// The longer of two texts by length in bytes; `y` when they are equally long.
pub fn longer<'a>(x: &'a str, y: &'a str) -> (r: &'a str)
    ensures
        r == (if x.len() > y.len() {
            x
        } else {
            y
        }),
{
    if x.len() > y.len() {
        x
    } else {
        y
    }
}

/// A piece of a longer text, borrowed from it.
pub struct Excerpt<'a> {
    pub part: &'a str,
}

/// `piece` is what comes before the first `sep` in `text`, or all of
/// `text` when it holds no `sep`.
pub open spec fn is_first_piece(text: Seq<char>, sep: char, piece: Seq<char>) -> bool {
    &&& piece.len() <= text.len()
    &&& piece == text.take(piece.len() as int)
    &&& !piece.contains(sep)
    &&& (piece.len() == text.len() || text[piece.len() as int] == sep)
}

/// The text before the first `.`, as `text.split('.').next()` gives it.
pub fn first_sentence(text: &str) -> (r: &str)
    ensures
        is_first_piece(text@, '.', r@),
{
    let cs = chars_of(text);
    let mut i: usize = 0;
    while i < cs.len() && cs[i] != '.'
        invariant
            0 <= i <= cs@.len(),
            cs@ == text@,
            forall|j: int| 0 <= j < i ==> cs@[j] != '.',
        decreases cs@.len() - i,
    {
        i = i + 1;
    }
    let r = text.substring_char(0, i);
    assert(r@ == text@.take(i as int));
    assert(!r@.contains('.')) by {
        if r@.contains('.') {
            let k = choose|k: int| 0 <= k < r@.len() && r@[k] == '.';
            assert(cs@[k] == '.');
        }
    }
    r
}

/// `first` when `pick_first` holds, else `second`, which lives at least as long.
pub fn select<'a, 'b>(first: &'a str, second: &'b str, pick_first: bool) -> (r: &'a str) where
    'b: 'a,
    ensures
        r == (if pick_first {
            first
        } else {
            second
        }),
{
    if pick_first {
        first
    } else {
        second
    }
}

/// Compares two owned texts by length.
pub fn lifetimes1_solution() {
    let s1 = "hello".to_owned();
    let s2 = "world!".to_owned();
    let r = longer(s1.as_str(), s2.as_str());
    proof {
        reveal_strlit("hello");
        reveal_strlit("world!");
        vstd::utf8::is_ascii_chars_encode_utf8(s1@);
        vstd::utf8::is_ascii_chars_encode_utf8(s2@);
    }
    assert(r@ == "world!"@);
}

/// Borrows the first sentence of a text in an `Excerpt`.
pub fn lifetimes2_solution() {
    let novel = "Call me Ishmael. Some years ago...".to_owned();
    let first = first_sentence(novel.as_str());
    let excerpt = Excerpt { part: first };
    proof {
        reveal_strlit("Call me Ishmael. Some years ago...");
    }
    assert(excerpt.part@.len() > 0);
}

/// Picks the first of two texts that live for different spans.
pub fn lifetimes3_solution() {
    let s1 = "first".to_owned();
    let s2 = "second".to_owned();
    let r = select(s1.as_str(), s2.as_str(), true);
    assert(r@ == "first"@);
}

} // verus!
