//! A position in a program text.

use vstd::prelude::*;

verus! {

/// A position in a program text: the index of a byte, and the line and the
/// column of that byte, both counted from 1.
#[derive(Copy, Clone, Debug, PartialEq, Eq)]
pub struct Location {
    pub index: usize,
    pub line: usize,
    pub col: usize,
}

impl Location {
    /// The position of the first byte of a text.
    pub fn start() -> (r: Location)
        ensures
            r == (Location { index: 0, line: 1, col: 1 }),
    {
        Location { index: 0, line: 1, col: 1 }
    }

    /// The position one byte on, on the same line.
    pub fn advance_col(self) -> (r: Location)
        requires
            self.index < usize::MAX,
            self.col < usize::MAX,
        ensures
            r == (Location {
                index: (self.index + 1) as usize,
                line: self.line,
                col: (self.col + 1) as usize,
            }),
    {
        Location { index: self.index + 1, line: self.line, col: self.col + 1 }
    }

    /// The position one byte on, at the start of the next line.
    pub fn advance_line(self) -> (r: Location)
        requires
            self.index < usize::MAX,
            self.line < usize::MAX,
        ensures
            r == (Location { index: (self.index + 1) as usize, line: (self.line + 1) as usize, col: 1 }),
    {
        Location { index: self.index + 1, line: self.line + 1, col: 1 }
    }
}

} // verus!
