//! Traits with default and per-type behaviour.
use vstd::prelude::*;

use crate::decimal::{decimal_digits, format_u32};

verus! {

/// Something that can introduce itself.
pub trait Greet {
    /// The greeting, as text.
    spec fn greeting(&self) -> Seq<char>;

    fn greet(&self) -> (g: String)
        ensures
            g@ == self.greeting(),
    ;
}

impl Greet for u32 {
    open spec fn greeting(&self) -> Seq<char> {
        "I am number "@ + decimal_digits(*self as nat)
    }

    fn greet(&self) -> (g: String) {
        let mut g = "I am number ".to_owned();
        let digits = format_u32(*self);
        g.append(digits.as_str());
        g
    }
}

impl Greet for String {
    open spec fn greeting(&self) -> Seq<char> {
        "Hello, "@ + self@ + "!"@
    }

    fn greet(&self) -> (g: String) {
        let mut g = "Hello, ".to_owned();
        g.append(self.as_str());
        g.append("!");
        g
    }
}

/// The greeting of anything that can greet.
pub fn say_hello<T: Greet>(thing: T) -> (g: String)
    ensures
        g@ == thing.greeting(),
{
    thing.greet()
}

/// Something that can be summed up in one line.
pub trait Summary {
    fn summarize(&self) -> (s: String)
        default_ensures
            s@ == "(Read more...)"@,
    {
        "(Read more...)".to_owned()
    }
}

/// A news article, summed up by its headline.
pub struct NewsArticle {
    pub headline: String,
}

/// A short post, summed up by its author and text.
pub struct Tweet {
    pub username: String,
    pub content: String,
}

impl Summary for NewsArticle {
    fn summarize(&self) -> (s: String)
        ensures
            s@ == "NEWS: "@ + self.headline@,
    {
        let mut s = "NEWS: ".to_owned();
        s.append(self.headline.as_str());
        s
    }
}

impl Summary for Tweet {
    fn summarize(&self) -> (s: String)
        ensures
            s@ == "@"@ + self.username@ + ": "@ + self.content@,
    {
        let mut s = "@".to_owned();
        s.append(self.username.as_str());
        s.append(": ");
        s.append(self.content.as_str());
        s
    }
}

} // verus!
