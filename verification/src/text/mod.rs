pub mod array;
pub mod chars;
pub mod flat;
pub mod piece_table;
pub mod render;

use crate::buffer::Position;
use flat::{delete_at, insert_at, line_end_offset, line_len, line_start_offset, newlines};
use vstd::prelude::*;

pub use array::ArrayBuffer;
pub use piece_table::PieceTableBuffer;

verus! {

/// A run of `length` characters, not bytes, that begins at `start`.
#[derive(Debug, Clone, Copy)]
pub struct Range {
    pub start: Position,
    pub length: usize,
}

impl Range {
    pub fn new(start: Position, length: usize) -> (range: Self)
        ensures
            range.start == start,
            range.length == length,
    {
        Range { start, length }
    }
}

/// One edit of a document: a character typed at a position, or a range
/// deleted.
#[derive(Debug, Clone, Copy)]
pub enum Edit {
    Insert(Position, char),
    Delete(Range),
}

impl From<Position> for Range {
    /// The one character at `pos`.
    fn from(pos: Position) -> (range: Self) {
        Range { start: pos, length: 1 }
    }
}

impl vstd::std_specs::convert::FromSpecImpl<Position> for Range {
    open spec fn obeys_from_spec() -> bool {
        true
    }

    open spec fn from_spec(pos: Position) -> Self {
        Range { start: pos, length: 1 }
    }
}

/// A document that is edited by line and column. Columns and lengths count
/// characters, not bytes.
pub trait TextBuffer {
    /// The document.
    spec fn contents(&self) -> Seq<char>;

    /// The buffer is in order.
    spec fn ready(&self) -> bool;

    /// The buffer can take one more character.
    spec fn has_room(&self) -> bool;

    /// The line of the document that the line number `line` addresses.
    spec fn line_of(&self, line: usize) -> usize;

    /// `after` is the buffer that typing `c` at `pos` makes of this one, with
    /// all that the buffer holds beside its text.
    spec fn inserted(&self, pos: Position, c: char, after: &Self) -> bool;

    /// `after` is the buffer that deleting `range` makes of this one, with
    /// all that the buffer holds beside its text.
    spec fn deleted(&self, range: Range, after: &Self) -> bool;

    /// A buffer in order holds a document whose length is a number of the
    /// machine, and addresses a line by the same number wherever the
    /// document has the line.
    proof fn lemma_ready(&self)
        requires
            self.ready(),
        ensures
            self.contents().len() <= usize::MAX,
            forall|line: usize|
                line <= newlines(self.contents()) ==> #[trigger] self.line_of(line) == line,
    ;

    fn to_string(&self) -> (text: String)
        requires
            self.ready(),
        ensures
            text@ == self.contents(),
    ;

    /// Types `c` at `pos`.
    fn insert(&mut self, pos: Position, c: char)
        requires
            old(self).ready(),
            old(self).has_room(),
        ensures
            final(self).ready(),
            final(self).contents() == insert_at(
                old(self).contents(),
                Position { line: old(self).line_of(pos.line), col: pos.col },
                c,
            ),
            old(self).inserted(pos, c, final(self)),
    ;

    /// Deletes the characters of `range`, or those of them that the
    /// document has.
    fn delete(&mut self, range: Range)
        requires
            old(self).ready(),
        ensures
            final(self).ready(),
            final(self).contents() == delete_at(
                old(self).contents(),
                Position { line: old(self).line_of(range.start.line), col: range.start.col },
                range.length as nat,
            ),
            old(self).deleted(range, final(self)),
    ;

    /// The lines that the terminal shows of the document from line `start`
    /// on, `count` of them or as many as there are.
    spec fn shown(&self, start: usize, count: usize) -> Seq<Seq<char>>;

    /// The lines of the document from line `start` on, `count` of them or
    /// as many as there are, as text for the terminal.
    fn to_text(&self, start: usize, count: usize) -> (text: tui::text::Text<'static>)
        requires
            self.ready(),
        ensures
            render::text_lines(text) == self.shown(start, count),
    ;

    /// The number of line breaks in the document.
    fn line_count(&self) -> (count: usize)
        requires
            self.ready(),
        ensures
            count == newlines(self.contents()),
    ;

    /// The characters of line `line`, its line break not among them.
    fn line(&self, line: usize) -> (text: String)
        requires
            self.ready(),
        ensures
            text@ == self.contents().subrange(
                line_start_offset(self.contents(), self.line_of(line) as nat),
                line_end_offset(self.contents(), self.line_of(line) as nat),
            ),
    ;

    /// The number of characters, not bytes, on line `line`, its line break
    /// not counted.
    fn line_length(&self, line: usize) -> (length: usize)
        requires
            self.ready(),
        ensures
            length == line_len(self.contents(), self.line_of(line) as nat),
    ;
}

} // verus!
