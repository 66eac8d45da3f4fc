//! The part of the document that a window shows.

use vstd::prelude::*;

verus! {

/// Where the cursor is drawn, and in which shape.
pub struct TextCursor {
    pub line: usize,
    pub col: usize,
    pub style: &'static str,
}

/// The first line of the document that the window shows.
#[derive(Debug, Clone, Copy, PartialEq, Eq, Structural)]
pub struct TextWindowState {
    pub offset: usize,
}

impl TextWindowState {
    pub fn new() -> (state: Self)
        ensures
            state.offset == 0,
    {
        TextWindowState { offset: 0 }
    }

    /// The first line to show so that a window of `height` lines, which
    /// shows from `self.offset` on, comes to hold the line `line`: the
    /// window moves up to a line above it, down until a line below it is
    /// its last, and stays where the line is in it.
    pub open spec fn scrolled(self, line: usize, height: usize) -> int {
        if line < self.offset {
            line as int
        } else if line >= self.offset + height {
            line + 1 - height
        } else {
            self.offset as int
        }
    }

    /// Moves the window so that it holds the line `line`.
    pub fn scroll(&mut self, line: usize, height: usize)
        requires
            height > 0 || line < usize::MAX,
        ensures
            final(self).offset == old(self).scrolled(line, height),
    {
        if line < self.offset {
            self.offset = line;
        } else if line - self.offset >= height {
            self.offset = line - height + 1;
        }
    }
}

} // verus!
