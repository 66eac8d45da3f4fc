//! Where the cursor goes. No motion changes the document.

use super::{Buffer, Position};
use crate::text::flat::{line_len, newlines};
use crate::text::TextBuffer;
use vstd::prelude::*;

verus! {

impl<T: TextBuffer> Buffer<T> {
    /// The length of the cursor's line, in characters.
    pub open spec fn line_end(&self) -> nat {
        line_len(self.text_buffer.contents(), self.text_buffer.line_of(self.cursor.line) as nat)
    }

    /// One column back, if there is one.
    pub open spec fn prev_pos(&self) -> Position {
        Position {
            line: self.cursor.line,
            col: if self.cursor.col > 0 {
                (self.cursor.col - 1) as usize
            } else {
                0
            },
        }
    }

    /// One column on, but not beyond the end of the line.
    pub open spec fn next_pos(&self) -> Position {
        Position {
            line: self.cursor.line,
            col: if self.cursor.col < self.line_end() {
                (self.cursor.col + 1) as usize
            } else {
                self.cursor.col
            },
        }
    }

    /// One line up, if there is one; the column stays as it was set.
    pub open spec fn prev_line_pos(&self) -> Position {
        Position {
            line: if self.cursor.line > 0 {
                (self.cursor.line - 1) as usize
            } else {
                0
            },
            col: self.cursor.col,
        }
    }

    /// One line down, but not beyond the last line; the column stays as it
    /// was set. A document with `n` line breaks has the lines 0 to `n`, the
    /// last of them perhaps empty, so the cursor goes down as long as its
    /// line is less than `line_count()`; that also holds of a document
    /// without a line break, where it stays.
    pub open spec fn next_line_pos(&self) -> Position {
        Position {
            line: if self.cursor.line < newlines(self.text_buffer.contents()) {
                (self.cursor.line + 1) as usize
            } else {
                self.cursor.line
            },
            col: self.cursor.col,
        }
    }

    /// The start of the cursor's line.
    pub open spec fn start_line_pos(&self) -> Position {
        Position { line: self.cursor.line, col: 0 }
    }

    /// The end of the cursor's line.
    pub open spec fn end_line_pos(&self) -> Position {
        Position { line: self.cursor.line, col: self.line_end() as usize }
    }

    /// One column back, if there is one.
    pub fn prev(&self) -> (pos: Position)
        ensures
            pos == self.prev_pos(),
    {
        let col = if self.cursor.col > 0 {
            self.cursor.col - 1
        } else {
            self.cursor.col
        };
        Position::new(self.cursor.line, col)
    }

    /// One column on, but not beyond the end of the line.
    pub fn next(&self) -> (pos: Position)
        requires
            self.wf(),
        ensures
            pos == self.next_pos(),
    {
        let max_cols = self.text_buffer.line_length(self.cursor.line);
        let col = if self.cursor.col < max_cols {
            self.cursor.col + 1
        } else {
            self.cursor.col
        };
        Position::new(self.cursor.line, col)
    }

    /// One line up, if there is one.
    pub fn prev_line(&self) -> (pos: Position)
        ensures
            pos == self.prev_line_pos(),
    {
        let line = if self.cursor.line > 0 {
            self.cursor.line - 1
        } else {
            self.cursor.line
        };
        Position::new(line, self.cursor.col)
    }

    /// One line down, as long as the cursor's line is less than the number
    /// of line breaks: the line of that number is the last.
    pub fn next_line(&self) -> (pos: Position)
        requires
            self.wf(),
        ensures
            pos == self.next_line_pos(),
    {
        let max_lines = self.text_buffer.line_count();
        let line = if self.cursor.line < max_lines {
            self.cursor.line + 1
        } else {
            self.cursor.line
        };
        Position::new(line, self.cursor.col)
    }

    /// The start of the cursor's line.
    pub fn start_line(&self) -> (pos: Position)
        ensures
            pos == self.start_line_pos(),
    {
        Position::new(self.cursor.line, 0)
    }

    /// The end of the cursor's line.
    pub fn end_line(&self) -> (pos: Position)
        requires
            self.wf(),
        ensures
            pos == self.end_line_pos(),
    {
        Position::new(self.cursor.line, self.text_buffer.line_length(self.cursor.line))
    }
}

} // verus!
