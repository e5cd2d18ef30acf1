use vstd::prelude::*;

verus! {

/// A location in source text: byte offset, 1-based line and 1-based column (in characters).
#[derive(Debug, Clone, Copy, PartialEq, Eq, Structural)]
pub struct Position {
    pub offset: usize,
    pub line: usize,
    pub column: usize,
}

/// The position of the first character of a source text.
pub open spec fn start_position() -> Position {
    Position { offset: 0, line: 1, column: 1 }
}

impl Position {
    pub fn start() -> (p: Self)
        ensures
            p == start_position(),
    {
        Position { offset: 0, line: 1, column: 1 }
    }
}

/// A half-open region of source text.
#[derive(Debug, Clone, Copy, PartialEq, Eq, Structural)]
pub struct Span {
    pub start: Position,
    pub end: Position,
}

impl Span {
    pub fn join(start: Position, end: Position) -> (s: Self)
        ensures
            s.start == start,
            s.end == end,
    {
        Span { start, end }
    }
}

} // verus!
