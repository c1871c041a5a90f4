//! Cursor positions in a source text.

use vstd::prelude::*;
use crate::common::text::{decimal, decimal_string};

verus! {

/// A place in a source text: a line and a column, both counted from one, and
/// the number of characters that stand before it.
#[derive(Clone, Copy, Debug, PartialEq, Eq)]
pub struct Position {
    pub line: usize,
    pub column: usize,
    pub index: usize,
}

/// The first and the last character of a stretch of source text, both
/// inclusive.
#[derive(Clone, Copy, Debug, PartialEq, Eq)]
pub struct PositionRange {
    pub start: Position,
    pub end: Position,
}

/// The position before the first character of any text.
pub open spec fn origin() -> Position {
    Position { line: 1, column: 1, index: 0 }
}

/// The position after the character `c` that stands at `p`: a newline opens
/// the next line, any other character moves one column on.
pub open spec fn step(p: Position, c: char) -> Position {
    if c == '\n' {
        Position { line: (p.line + 1) as usize, column: 1, index: (p.index + 1) as usize }
    } else {
        Position { line: p.line, column: (p.column + 1) as usize, index: (p.index + 1) as usize }
    }
}

/// The position of the character with index `i` in `src`: where the cursor
/// stands once the `i` characters before it are consumed.
pub open spec fn position_at(src: Seq<char>, i: int) -> Position
    decreases i,
{
    if i <= 0 {
        origin()
    } else {
        step(position_at(src, i - 1), src[i - 1])
    }
}

/// The range from the character with index `first` to the one with index
/// `last`.
pub open spec fn range_at(src: Seq<char>, first: int, last: int) -> PositionRange {
    PositionRange { start: position_at(src, first), end: position_at(src, last) }
}

/// How a position reads in a diagnostic.
pub open spec fn position_display(p: Position) -> Seq<char> {
    "(Line: "@ + decimal(p.line as nat) + ", Column: "@ + decimal(p.column as nat) + ", Index: "@
        + decimal(p.index as nat) + ")"@
}

/// How a range reads in a diagnostic.
pub open spec fn range_display(r: PositionRange) -> Seq<char> {
    "{Start: "@ + position_display(r.start) + ", End: "@ + position_display(r.end) + "}"@
}

/// Positions inside a text that fits the machine keep their index, and line
/// and column stay between one and the index plus one.
pub proof fn lemma_position_bounds(src: Seq<char>, i: int)
    requires
        0 <= i <= src.len(),
        src.len() < usize::MAX,
    ensures
        position_at(src, i).index == i,
        1 <= position_at(src, i).line <= i + 1,
        1 <= position_at(src, i).column <= i + 1,
    decreases i,
{
    if i > 0 {
        lemma_position_bounds(src, i - 1);
    }
}

/// The cursor never moves back: along a text, index and line do not
/// decrease.
pub proof fn lemma_position_monotonic(src: Seq<char>, i: int, j: int)
    requires
        0 <= i <= j <= src.len(),
        src.len() < usize::MAX,
    ensures
        position_at(src, i).index <= position_at(src, j).index,
        position_at(src, i).line <= position_at(src, j).line,
    decreases j - i,
{
    if i < j {
        lemma_position_monotonic(src, i, j - 1);
        lemma_position_bounds(src, j - 1);
    }
}

impl Position {
    pub fn new() -> (p: Position)
        ensures
            p == origin(),
    {
        Position { line: 1, column: 1, index: 0 }
    }

    pub fn to_string(&self) -> (s: String)
        ensures
            s@ == position_display(*self),
    {
        let mut s = String::from_str("(Line: ");
        s.append(decimal_string(self.line).as_str());
        s.append(", Column: ");
        s.append(decimal_string(self.column).as_str());
        s.append(", Index: ");
        s.append(decimal_string(self.index).as_str());
        s.append(")");
        s
    }
}

impl PositionRange {
    pub fn to_string(&self) -> (s: String)
        ensures
            s@ == range_display(*self),
    {
        let mut s = String::from_str("{Start: ");
        s.append(self.start.to_string().as_str());
        s.append(", End: ");
        s.append(self.end.to_string().as_str());
        s.append("}");
        s
    }
}

} // verus!
