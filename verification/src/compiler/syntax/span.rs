//! Positions in the source text.

use vstd::prelude::*;

verus! {

/// A position: the line, the column within the line, and the number of
/// characters before it, all counted from zero.
#[derive(Clone, Copy, Debug, PartialEq, Eq, Hash, Structural)]
pub struct Pos {
    pub line: usize,
    pub column: usize,
    pub index: usize,
}

impl Pos {
    /// The position of the first character.
    pub open spec fn origin() -> Pos {
        Pos { line: 0, column: 0, index: 0 }
    }

    /// A position behind every character: where the text has ended.
    pub open spec fn beyond() -> Pos {
        Pos { line: usize::MAX, column: usize::MAX, index: usize::MAX }
    }

    /// The position of the first character.
    pub fn zero() -> (r: Pos)
        ensures
            r == Pos::origin(),
    {
        Pos { line: 0, column: 0, index: 0 }
    }

    /// A position behind every character: where the text has ended.
    pub fn max() -> (r: Pos)
        ensures
            r == Pos::beyond(),
    {
        Pos { line: usize::MAX, column: usize::MAX, index: usize::MAX }
    }

    /// The position behind a character that ends a line.
    pub open spec fn next_line(self) -> Pos {
        Pos { line: (self.line + 1) as usize, column: 0, index: (self.index + 1) as usize }
    }

    /// The position behind a character that a line does not show: the line
    /// feed of a line end that a carriage return began.
    pub open spec fn next_idx(self) -> Pos {
        Pos { line: self.line, column: self.column, index: (self.index + 1) as usize }
    }

    /// The position behind any other character.
    pub open spec fn next_pos(self) -> Pos {
        Pos { line: self.line, column: (self.column + 1) as usize, index: (self.index + 1) as usize }
    }

    /// Moves to the start of the next line.
    pub fn move_next_line(&mut self)
        requires
            old(self).line < usize::MAX,
            old(self).index < usize::MAX,
        ensures
            *final(self) == old(self).next_line(),
    {
        self.line += 1;
        self.column = 0;
        self.index += 1;
    }

    /// Moves past a character without moving in the line.
    pub fn move_next_idx(&mut self)
        requires
            old(self).index < usize::MAX,
        ensures
            *final(self) == old(self).next_idx(),
    {
        self.index += 1;
    }

    /// Moves one column on.
    pub fn move_next_pos(&mut self)
        requires
            old(self).column < usize::MAX,
            old(self).index < usize::MAX,
        ensures
            *final(self) == old(self).next_pos(),
    {
        self.column += 1;
        self.index += 1;
    }
}

/// A stretch of source text: from its first character to the position behind
/// its last.
#[derive(Clone, Copy, Debug, PartialEq, Eq, Hash, Structural)]
pub struct Span {
    pub start: Pos,
    pub end: Pos,
}

impl Span {
    pub fn from(start: Pos, end: Pos) -> (r: Span)
        ensures
            r == (Span { start, end }),
    {
        Span { start, end }
    }
}

} // verus!
