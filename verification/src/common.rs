use vstd::prelude::*;

use crate::text::{decimal, push_decimal, push_str, string_of};

verus! {

/// A range of positions in a source text.
#[derive(Clone, Copy, Debug, Default, PartialEq, Eq, Structural)]
pub struct Span {
    pub start: u32,
    pub end: u32,
}

impl Span {
    /// The span `start..end`; positions beyond `u32::MAX` wrap as `as u32` does.
    pub fn new(start: usize, end: usize) -> (s: Self)
        ensures
            s.start == start as u32,
            s.end == end as u32,
    {
        Span { start: start as u32, end: end as u32 }
    }
}

/// An error of the Basil tool chain, holding its message.
#[derive(Debug)]
pub struct BasilError(pub String);

/// The message of an error reported at a source line.
pub open spec fn line_message(line: u32, msg: Seq<char>) -> Seq<char> {
    "[line "@ + decimal(line as nat) + "] "@ + msg
}

/// An error reported at source line `line`.
pub fn basil_error(line: u32, msg: &str) -> (e: BasilError)
    ensures
        e.0@ == line_message(line, msg@),
{
    let mut s = string_of("[line ");
    push_decimal(&mut s, line as u64);
    push_str(&mut s, "] ");
    push_str(&mut s, msg);
    BasilError(s)
}

} // verus!
