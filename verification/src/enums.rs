//! Enums taken apart with `match` and `if let`.
use vstd::prelude::*;

verus! {

/// A message of one of three kinds.
pub enum Message {
    Quit,
    ChangeColor(i32, i32, i32),
    Write(String),
}

/// The text each kind of message carries.
pub open spec fn spec_message_text(msg: Message) -> Seq<char> {
    match msg {
        Message::Quit => Seq::empty(),
        Message::ChangeColor(_, _, _) => "changed color"@,
        Message::Write(s) => s@,
    }
}

impl Message {
    /// The text a message carries: nothing for `Quit`, a fixed note for a
    /// colour change, the text itself for `Write`.
    pub fn into_text(self) -> (t: String)
        ensures
            t@ == spec_message_text(self),
    {
        match self {
            Message::Quit => String::new(),
            Message::ChangeColor(_, _, _) => "changed color".to_owned(),
            Message::Write(s) => s,
        }
    }
}

/// Twice the value when there is one, else 0.
pub fn double_or_zero(maybe_value: Option<i32>) -> (r: i32)
    requires
        maybe_value matches Some(v) ==> i32::MIN <= 2 * v <= i32::MAX,
    ensures
        r == (match maybe_value {
            Some(v) => 2 * v,
            None => 0,
        }),
{
    if let Some(v) = maybe_value {
        v * 2
    } else {
        0
    }
}

/// An arithmetic operation on two `i32` operands.
pub enum Operation {
    Add(i32, i32),
    Multiply(i32, i32),
}

/// The exact result of an operation.
pub open spec fn spec_compute(op: Operation) -> int {
    match op {
        Operation::Add(a, b) => a + b,
        Operation::Multiply(a, b) => a * b,
    }
}

impl Operation {
    /// The sum or the product of the two operands.
    pub fn compute(&self) -> (r: i32)
        requires
            i32::MIN <= spec_compute(*self) <= i32::MAX,
        ensures
            r == spec_compute(*self),
    {
        match self {
            Operation::Add(a, b) => *a + *b,
            Operation::Multiply(a, b) => *a * *b,
        }
    }
}

} // verus!
