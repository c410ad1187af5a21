use vstd::prelude::*;

verus! {

/// A cell coordinate on the terminal: `line` counts rows, `offset` counts columns.
#[derive(Debug, Clone, Copy, PartialEq, Eq, Structural)]
pub struct Position {
    pub line: usize,
    pub offset: usize,
}

impl Position {
    pub fn new(line: usize, offset: usize) -> (p: Position)
        ensures
            p.line == line,
            p.offset == offset,
    {
        Position { line, offset }
    }

    /// Component-wise sum of two positions.
    pub fn plus(self, other: Position) -> (p: Position)
        requires
            self.line + other.line <= usize::MAX,
            self.offset + other.offset <= usize::MAX,
        ensures
            p.line == self.line + other.line,
            p.offset == self.offset + other.offset,
    {
        Position { line: self.line + other.line, offset: self.offset + other.offset }
    }
}

/// An axis-aligned area of the terminal, anchored at its top-left `position`.
#[derive(Debug, Clone, Copy, PartialEq, Eq, Structural)]
pub struct Rectangle {
    pub position: Position,
    pub width: usize,
    pub height: usize,
}

impl Rectangle {
    /// The rectangle's lines run from `position.line` to `position.line + height`
    /// and its columns from `position.offset` to `position.offset + width`, both ends included.
    pub open spec fn spec_contains(self, p: Position) -> bool {
        &&& self.position.line <= p.line <= self.position.line + self.height
        &&& self.position.offset <= p.offset <= self.position.offset + self.width
    }

    pub fn contains(&self, position: Position) -> (r: bool)
        requires
            self.position.line + self.height <= usize::MAX,
            self.position.offset + self.width <= usize::MAX,
        ensures
            r == self.spec_contains(position),
    {
        let end_position = self.position.plus(Position::new(self.height, self.width));
        position.line >= self.position.line && position.line <= end_position.line
            && position.offset >= self.position.offset && position.offset <= end_position.offset
    }
}

} // verus!
