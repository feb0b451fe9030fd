//! Places in a text.

use vstd::prelude::*;

verus! {

/// A place in a text: a line and a column, both counted from one.
#[derive(Clone, Copy, PartialEq, Eq, Debug, Structural)]
pub struct Pos {
    pub line: u32,
    pub col: u32,
}

/// A stretch of a text, from its first place to its last.
#[derive(Clone, Copy, PartialEq, Eq, Debug, Structural)]
pub struct Span {
    pub start: Pos,
    pub end: Pos,
}

impl Pos {
    /// The place at the given line and column.
    pub fn new(line: u32, col: u32) -> (r: Pos)
        ensures
            r == (Pos { line, col }),
    {
        Pos { line, col }
    }
}

impl Span {
    /// The stretch from `start` to `end`.
    pub fn new(start: Pos, end: Pos) -> (r: Span)
        ensures
            r == (Span { start, end }),
    {
        Span { start, end }
    }
}

} // verus!
