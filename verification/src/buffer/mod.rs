//! A document with a cursor.

pub mod motions;

use crate::text::flat::{delete_at, insert_at, line_len};
use crate::text::{Range, TextBuffer};
use vstd::prelude::*;

verus! {

/// A zero-based line and column. The column counts characters, not bytes;
/// it is kept as the user left it and may lie beyond the end of its line.
#[derive(Debug, Clone, Copy, PartialEq, Eq, Structural)]
pub struct Position {
    pub line: usize,
    pub col: usize,
}

impl Position {
    pub fn new(line: usize, col: usize) -> (pos: Self)
        ensures
            pos.line == line,
            pos.col == col,
    {
        Position { line, col }
    }
}

/// A document and the cursor in it. The cursor is kept as it was set; where
/// it is used to address the text, its column is cut down to its line.
pub struct Buffer<T: TextBuffer> {
    pub cursor: Position,
    pub text_buffer: Box<T>,
}

impl<T: TextBuffer> Buffer<T> {
    /// The document is in order.
    pub open spec fn wf(&self) -> bool {
        self.text_buffer.ready()
    }

    /// The place in the document that `pos` addresses.
    pub open spec fn place(&self, pos: Position) -> Position {
        Position { line: self.text_buffer.line_of(pos.line), col: pos.col }
    }

    /// The cursor with its column cut down to the length of its line.
    pub open spec fn clamped(&self) -> Position {
        let max_col = line_len(
            self.text_buffer.contents(),
            self.text_buffer.line_of(self.cursor.line) as nat,
        );
        Position {
            line: self.cursor.line,
            col: if self.cursor.col > max_col {
                max_col as usize
            } else {
                self.cursor.col
            },
        }
    }

    /// The buffer holds the text and the cursor of `state`.
    pub open spec fn shows(&self, state: (Seq<char>, Position)) -> bool {
        &&& self.text_buffer.contents() == state.0
        &&& self.cursor == state.1
    }

    /// Text and cursor after `c` was typed at the cursor: the cursor stands
    /// behind `c`, at the start of the next line for a line break, one
    /// column on for any other character.
    pub open spec fn after_insert(&self, c: char) -> (Seq<char>, Position) {
        (
            insert_at(self.text_buffer.contents(), self.place(self.clamped()), c),
            if c == '\n' {
                Position { line: (self.cursor.line + 1) as usize, col: 0 }
            } else {
                Position { line: self.cursor.line, col: (self.clamped().col + 1) as usize }
            },
        )
    }

    /// Where the cursor stands after `delete`: one column back from its
    /// place on the line, or at the end of the line before; unmoved at the
    /// start of the document.
    pub open spec fn before_cursor(&self) -> Position {
        let at = self.clamped();
        if at.line == 0 && at.col == 0 {
            self.cursor
        } else if at.col > 0 {
            Position { line: at.line, col: (at.col - 1) as usize }
        } else {
            Position {
                line: (at.line - 1) as usize,
                col: line_len(
                    self.text_buffer.contents(),
                    self.text_buffer.line_of((at.line - 1) as usize) as nat,
                ) as usize,
            }
        }
    }

    /// Text and cursor after the character before the cursor was deleted:
    /// the cursor stands in its place. At the start of the document nothing
    /// changes.
    pub open spec fn after_delete(&self) -> (Seq<char>, Position) {
        if self.clamped() == (Position { line: 0, col: 0 }) {
            (self.text_buffer.contents(), self.cursor)
        } else {
            (
                delete_at(self.text_buffer.contents(), self.place(self.before_cursor()), 1),
                self.before_cursor(),
            )
        }
    }

    /// Text and cursor after a line was opened above the cursor's.
    pub open spec fn after_line_above(&self) -> (Seq<char>, Position) {
        (
            insert_at(
                self.text_buffer.contents(),
                self.place(Position { line: self.cursor.line, col: 0 }),
                '\n',
            ),
            Position { line: self.cursor.line, col: 0 },
        )
    }

    /// Text and cursor after a line was opened below the cursor's.
    pub open spec fn after_line_below(&self) -> (Seq<char>, Position) {
        (
            insert_at(
                self.text_buffer.contents(),
                self.place(
                    Position {
                        line: self.cursor.line,
                        col: line_len(
                            self.text_buffer.contents(),
                            self.text_buffer.line_of(self.cursor.line) as nat,
                        ) as usize,
                    },
                ),
                '\n',
            ),
            Position { line: (self.cursor.line + 1) as usize, col: 0 },
        )
    }

    /// `after` holds the document that typing `c` at the cursor makes of
    /// this one.
    pub open spec fn inserts(&self, c: char, after: &Self) -> bool {
        self.text_buffer.inserted(self.clamped(), c, &*after.text_buffer)
    }

    /// `after` holds the document that deleting the character before the
    /// cursor makes of this one: the same document at the start of it.
    pub open spec fn deletes(&self, after: &Self) -> bool {
        if self.clamped() == (Position { line: 0, col: 0 }) {
            after.text_buffer == self.text_buffer
        } else {
            self.text_buffer.deleted(
                Range { start: self.before_cursor(), length: 1 },
                &*after.text_buffer,
            )
        }
    }

    /// `after` holds the document that a line break at the start of the
    /// cursor's line makes of this one.
    pub open spec fn opens_above(&self, after: &Self) -> bool {
        self.text_buffer.inserted(
            Position { line: self.cursor.line, col: 0 },
            '\n',
            &*after.text_buffer,
        )
    }

    /// `after` holds the document that a line break at the end of the
    /// cursor's line makes of this one.
    pub open spec fn opens_below(&self, after: &Self) -> bool {
        self.text_buffer.inserted(
            Position {
                line: self.cursor.line,
                col: line_len(
                    self.text_buffer.contents(),
                    self.text_buffer.line_of(self.cursor.line) as nat,
                ) as usize,
            },
            '\n',
            &*after.text_buffer,
        )
    }

    pub fn new(text_buffer: Box<T>) -> (buffer: Self)
        ensures
            buffer.text_buffer == text_buffer,
            buffer.cursor == (Position { line: 0, col: 0 }),
    {
        Buffer { cursor: Position::new(0, 0), text_buffer }
    }

    /// Types `c` at the cursor and moves the cursor behind it.
    pub fn insert(&mut self, c: char)
        requires
            old(self).wf(),
            old(self).text_buffer.has_room(),
            old(self).cursor.line < usize::MAX,
        ensures
            final(self).wf(),
            final(self).shows(old(self).after_insert(c)),
            old(self).inserts(c, final(self)),
    {
        let cursor = self.cursor();
        let ghost before = self.text_buffer.contents();
        let ghost place = self.place(cursor);
        proof {
            self.text_buffer.lemma_ready();
            crate::text::flat::lemma_offset_of_bounds(before, place);
            assert(cursor.col <= before.len());
        }
        self.text_buffer.insert(cursor, c);
        proof {
            self.text_buffer.lemma_ready();
            assert(self.text_buffer.contents().len() == before.len() + 1);
        }
        if c == '\n' {
            self.cursor.col = 0;
            self.cursor.line = cursor.line + 1;
        } else {
            self.cursor.col = cursor.col + 1;
        }
    }

    /// Deletes the character before the cursor and moves the cursor onto
    /// its place.
    pub fn delete(&mut self)
        requires
            old(self).wf(),
        ensures
            final(self).wf(),
            final(self).shows(old(self).after_delete()),
            old(self).deletes(final(self)),
    {
        let cursor = self.cursor();
        if cursor.line == 0 && cursor.col == 0 {
            return ;
        }
        if cursor.col > 0 {
            self.cursor.col = cursor.col - 1;
        } else {
            self.cursor.line = self.cursor.line - 1;
            self.cursor.col = self.text_buffer.line_length(self.cursor.line);
        }
        self.text_buffer.delete(Range::from(self.cursor));
    }

    pub fn move_cursor(&mut self, pos: Position)
        ensures
            final(self).cursor == pos,
            final(self).text_buffer == old(self).text_buffer,
    {
        self.cursor = pos
    }

    /// The cursor with its column cut down to the length of its line.
    pub fn cursor(&self) -> (pos: Position)
        requires
            self.wf(),
        ensures
            pos == self.clamped(),
    {
        let max_col = self.text_buffer.line_length(self.cursor.line);
        Position {
            line: self.cursor.line,
            col: if self.cursor.col > max_col {
                max_col
            } else {
                self.cursor.col
            },
        }
    }

    /// Opens a line above the cursor's and puts the cursor at its start.
    pub fn line_above(&mut self)
        requires
            old(self).wf(),
            old(self).text_buffer.has_room(),
        ensures
            final(self).wf(),
            final(self).shows(old(self).after_line_above()),
            old(self).opens_above(final(self)),
    {
        let line = self.cursor.line;
        self.text_buffer.insert(Position::new(line, 0), '\n');
        self.cursor = Position::new(line, 0);
    }

    /// Opens a line below the cursor's and puts the cursor at its start.
    pub fn line_below(&mut self)
        requires
            old(self).wf(),
            old(self).text_buffer.has_room(),
            old(self).cursor.line < usize::MAX,
        ensures
            final(self).wf(),
            final(self).shows(old(self).after_line_below()),
            old(self).opens_below(final(self)),
    {
        let line = self.cursor.line;
        let col = self.text_buffer.line_length(line);
        self.text_buffer.insert(Position::new(line, col), '\n');
        self.cursor = Position::new(line + 1, 0);
    }
}

} // verus!
