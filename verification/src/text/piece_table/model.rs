//! The piece table as a mathematical value, and what each operation makes of
//! it.

use super::{Location, Piece, Source};
use crate::buffer::Position;
use crate::text::flat::{line_len, line_start_offset, newlines, offset_of};
use crate::text::Range;
use vstd::prelude::*;

verus! {

/// One entry of the undo log: the pieces `start..end` of the list as it is
/// stand where `pieces` stood before.
pub struct UndoStepView {
    pub start: usize,
    pub end: usize,
    pub pieces: Seq<Piece>,
}

/// What a piece table holds.
pub struct PieceTableView {
    pub original: Seq<char>,
    pub added: Seq<char>,
    pub pieces: Seq<Piece>,
    pub undo_steps: Seq<UndoStepView>,
    pub cache_idx: Option<usize>,
}

/// The summed lengths of `pieces`.
pub open spec fn total_len(pieces: Seq<Piece>) -> nat
    decreases pieces.len(),
{
    if pieces.len() == 0 {
        0
    } else {
        total_len(pieces.drop_last()) + pieces.last().length as nat
    }
}

/// `pieces` with the pieces `start..end` taken out and `with` put in their
/// place.
pub open spec fn splice(pieces: Seq<Piece>, start: int, end: int, with: Seq<Piece>) -> Seq<Piece> {
    pieces.subrange(0, start) + with + pieces.subrange(end, pieces.len() as int)
}

/// The list that undoing `step` makes of `pieces`.
pub open spec fn restore(pieces: Seq<Piece>, step: UndoStepView) -> Seq<Piece> {
    splice(pieces, step.start as int, step.end as int, step.pieces)
}

/// Every step of the log, undone in turn from `pieces` on, names pieces that
/// the list then has, and no list on the way holds more than `cap`
/// characters.
pub open spec fn history_ok(pieces: Seq<Piece>, steps: Seq<UndoStepView>, cap: int) -> bool
    decreases steps.len(),
{
    &&& total_len(pieces) <= cap
    &&& steps.len() > 0 ==> {
        &&& steps.last().start <= steps.last().end <= pieces.len()
        &&& history_ok(restore(pieces, steps.last()), steps.drop_last(), cap)
    }
}

/// The place at `offset` characters behind the start of piece `idx`, named by
/// the piece that holds the character there; the end of the list where the
/// pieces hold no such character.
pub open spec fn locate_from(pieces: Seq<Piece>, idx: int, offset: int) -> Location
    decreases pieces.len() - idx,
{
    if idx >= pieces.len() {
        Location { idx: pieces.len() as usize, offset: 0 }
    } else if offset < pieces[idx].length {
        Location { idx: idx as usize, offset: offset as usize }
    } else {
        locate_from(pieces, idx + 1, offset - pieces[idx].length)
    }
}

/// The place at `offset` characters behind the start of piece `idx`, named by
/// the piece that holds the character before it.
pub open spec fn locate_behind_from(pieces: Seq<Piece>, idx: int, offset: int) -> Location
    decreases pieces.len() - idx,
{
    if idx >= pieces.len() {
        Location { idx: pieces.len() as usize, offset: 0 }
    } else if offset <= pieces[idx].length {
        Location { idx: idx as usize, offset: offset as usize }
    } else {
        locate_behind_from(pieces, idx + 1, offset - pieces[idx].length)
    }
}

impl PieceTableView {
    /// The table that holds `text` and has seen no edit.
    pub open spec fn initial(text: Seq<char>) -> PieceTableView {
        PieceTableView {
            original: text,
            added: Seq::empty(),
            pieces: if text.len() == 0 {
                Seq::empty()
            } else {
                seq![Piece::over(Source::Original, text, 0, text.len() as int)]
            },
            undo_steps: Seq::empty(),
            cache_idx: None,
        }
    }

    pub open spec fn buffer(self, source: Source) -> Seq<char> {
        match source {
            Source::Original => self.original,
            Source::Added => self.added,
        }
    }

    /// The characters that `piece` stands for.
    pub open spec fn piece_text(self, piece: Piece) -> Seq<char> {
        piece.text_in(self.buffer(piece.source))
    }

    /// `piece` is not empty, lies inside its buffer and counts its line
    /// breaks rightly.
    pub open spec fn piece_ok(self, piece: Piece) -> bool {
        &&& piece.length > 0
        &&& piece.within(self.buffer(piece.source))
        &&& piece.newline_count == newlines(self.piece_text(piece))
    }

    pub open spec fn pieces_ok(self, pieces: Seq<Piece>) -> bool {
        forall|i: int| 0 <= i < pieces.len() ==> self.piece_ok(#[trigger] pieces[i])
    }

    /// The pieces that the steps of a log hold are in order.
    pub open spec fn steps_ok(self, steps: Seq<UndoStepView>) -> bool {
        forall|i: int| 0 <= i < steps.len() ==> self.pieces_ok(#[trigger] steps[i].pieces)
    }

    /// The characters that `pieces` stand for, in order.
    pub open spec fn text_of(self, pieces: Seq<Piece>) -> Seq<char>
        decreases pieces.len(),
    {
        if pieces.len() == 0 {
            Seq::empty()
        } else {
            self.text_of(pieces.drop_last()) + self.piece_text(pieces.last())
        }
    }

    /// The document.
    pub open spec fn text(self) -> Seq<char> {
        self.text_of(self.pieces)
    }

    /// How many characters the two buffers hold together.
    pub open spec fn capacity(self) -> int {
        (self.original.len() + self.added.len()) as int
    }

    /// The offset in the document at which piece `idx` starts.
    pub open spec fn prefix_len(self, idx: int) -> nat {
        total_len(self.pieces.take(idx))
    }

    /// The offset in the document that `loc` names.
    pub open spec fn offset_at(self, loc: Location) -> int {
        self.prefix_len(loc.idx as int) + loc.offset
    }

    pub open spec fn wf(self) -> bool {
        &&& self.capacity() <= usize::MAX
        &&& self.pieces_ok(self.pieces)
        &&& self.steps_ok(self.undo_steps)
        &&& history_ok(self.pieces, self.undo_steps, self.capacity())
        &&& self.cache_idx matches Some(idx) ==> {
            &&& self.undo_steps.len() > 0
            &&& (idx == self.undo_steps.last().start || idx + 1 == self.undo_steps.last().start)
        }
    }

    /// Where line `line` starts: in the piece that holds the line break
    /// before it, right behind that break. Line 0 starts at the first piece,
    /// a line that the document does not have at the end of the list.
    pub open spec fn line_start(self, line: usize) -> Location {
        if line == 0 {
            Location { idx: 0, offset: 0 }
        } else if line > newlines(self.text()) {
            Location { idx: self.pieces.len() as usize, offset: 0 }
        } else {
            locate_behind_from(self.pieces, 0, line_start_offset(self.text(), line as nat))
        }
    }

    /// The place that `pos` addresses.
    pub open spec fn location(self, pos: Position) -> Location {
        locate_from(self.pieces, 0, offset_of(self.text(), pos))
    }

    pub open spec fn line_length(self, line: usize) -> nat {
        line_len(self.text(), line as nat)
    }

    pub open spec fn line_count(self) -> nat {
        newlines(self.text())
    }

    /// The piece over `length` characters of the buffer `source` from `start`.
    pub open spec fn piece_over(self, source: Source, start: int, length: int) -> Piece {
        Piece::over(source, self.buffer(source), start, length)
    }

    /// The first `offset` characters of `piece`.
    pub open spec fn head_of(self, piece: Piece, offset: int) -> Piece {
        self.piece_over(piece.source, piece.start as int, offset)
    }

    /// `piece` without its first `offset` characters.
    pub open spec fn tail_of(self, piece: Piece, offset: int) -> Piece {
        self.piece_over(piece.source, piece.start + offset, piece.length - offset)
    }

    /// The piece before `loc` ends where the added buffer ends, and `loc`
    /// lies right behind it: a character typed there extends that piece.
    pub open spec fn extends_left(self, loc: Location) -> bool {
        &&& 0 < loc.idx <= self.pieces.len()
        &&& loc.offset == 0
        &&& self.pieces[loc.idx - 1].source == Source::Added
        &&& self.pieces[loc.idx - 1].start + self.pieces[loc.idx - 1].length == self.added.len()
    }

    /// The piece that stands for `c` once it is typed: the next character of
    /// the added buffer.
    pub open spec fn typed(self, c: char) -> Piece {
        Piece {
            source: Source::Added,
            start: self.added.len() as usize,
            length: 1,
            newline_count: if c == '\n' {
                1
            } else {
                0
            },
        }
    }

    /// `left` made longer by `c`.
    pub open spec fn extended(self, left: Piece, c: char) -> Piece {
        Piece {
            length: (left.length + 1) as usize,
            newline_count: if c == '\n' {
                (left.newline_count + 1) as usize
            } else {
                left.newline_count
            },
            ..left
        }
    }

    /// The table after `c` was typed at `pos`.
    pub open spec fn insert(self, pos: Position, c: char) -> PieceTableView {
        let loc = self.location(pos);
        let idx = loc.idx as int;
        let typed = self.typed(c);
        if self.extends_left(loc) {
            PieceTableView {
                added: self.added.push(c),
                pieces: self.pieces.update(idx - 1, self.extended(self.pieces[idx - 1], c)),
                cache_idx: None,
                ..self
            }
        } else if idx >= self.pieces.len() {
            PieceTableView {
                added: self.added.push(c),
                pieces: self.pieces.push(typed),
                undo_steps: self.undo_steps.push(
                    UndoStepView { start: idx as usize, end: (idx + 1) as usize, pieces: Seq::empty() },
                ),
                cache_idx: None,
                ..self
            }
        } else {
            let old = self.pieces[idx];
            let new_pieces = if loc.offset == 0 {
                seq![typed, old]
            } else {
                seq![self.head_of(old, loc.offset as int), typed, self.tail_of(old, loc.offset as int)]
            };
            PieceTableView {
                added: self.added.push(c),
                pieces: splice(self.pieces, idx, idx + 1, new_pieces),
                undo_steps: self.undo_steps.push(
                    UndoStepView {
                        start: idx as usize,
                        end: (idx + new_pieces.len()) as usize,
                        pieces: seq![old],
                    },
                ),
                cache_idx: None,
                ..self
            }
        }
    }

    /// The offset behind the last character that a delete of `range` takes.
    pub open spec fn delete_end(self, range: Range) -> int {
        let from = offset_of(self.text(), range.start);
        if from + range.length > self.text().len() {
            self.text().len() as int
        } else {
            from + range.length
        }
    }

    /// The place of the last character that a delete of `range` takes.
    pub open spec fn delete_last(self, range: Range) -> Location {
        locate_from(self.pieces, 0, self.delete_end(range) - 1)
    }

    /// A delete of `range` takes at least one character.
    pub open spec fn deletes_some(self, range: Range) -> bool {
        self.delete_end(range) > offset_of(self.text(), range.start)
    }

    /// A delete of `range` leaves the end of its last piece standing.
    pub open spec fn delete_keeps_right(self, range: Range) -> bool {
        let last = self.delete_last(range);
        last.offset + 1 < self.pieces[last.idx as int].length
    }

    /// The piece that a delete of `range` leaves marked: the one that ends
    /// where the delete starts. That is what the delete leaves of its first
    /// piece, or, where it starts at the start of a piece, the piece before;
    /// no piece ends at the start of the document, nor where a delete that
    /// takes nothing starts inside a piece.
    pub open spec fn delete_mark(self, range: Range) -> Option<usize> {
        let loc = self.location(range.start);
        if loc.offset > 0 {
            if self.deletes_some(range) {
                Some(loc.idx)
            } else {
                None
            }
        } else if loc.idx > 0 {
            Some((loc.idx - 1) as usize)
        } else {
            None
        }
    }

    /// A delete of `range` goes into the newest undo step: it takes
    /// characters up to the end of the marked piece, which is where the
    /// delete before it started, and no insert or undo came in between.
    pub open spec fn coalesces(self, range: Range) -> bool {
        &&& self.deletes_some(range)
        &&& self.cache_idx == Some(self.delete_last(range).idx)
        &&& !self.delete_keeps_right(range)
    }

    /// The pieces that stand in place of those that a delete of `range`
    /// touches: what is left of the first and of the last.
    pub open spec fn delete_remains(self, range: Range) -> Seq<Piece> {
        let loc = self.location(range.start);
        let last = self.delete_last(range);
        let left = if loc.offset > 0 {
            seq![self.head_of(self.pieces[loc.idx as int], loc.offset as int)]
        } else {
            Seq::empty()
        };
        let right = if self.delete_keeps_right(range) {
            seq![self.tail_of(self.pieces[last.idx as int], last.offset + 1)]
        } else {
            Seq::empty()
        };
        if self.deletes_some(range) {
            left + right
        } else {
            Seq::empty()
        }
    }

    /// One past the last piece that a delete of `range` touches.
    pub open spec fn delete_upto(self, range: Range) -> int {
        if self.deletes_some(range) {
            self.delete_last(range).idx + 1
        } else {
            self.location(range.start).idx as int
        }
    }

    /// The list that a delete of `range` leaves.
    pub open spec fn delete_pieces(self, range: Range) -> Seq<Piece> {
        splice(
            self.pieces,
            self.location(range.start).idx as int,
            self.delete_upto(range),
            self.delete_remains(range),
        )
    }

    /// The table after the characters of `range` were deleted.
    pub open spec fn delete(self, range: Range) -> PieceTableView {
        let from = self.location(range.start).idx as int;
        let upto = self.delete_upto(range);
        let remains = self.delete_remains(range);
        let pieces = self.delete_pieces(range);
        if self.coalesces(range) {
            let top = self.undo_steps.last();
            let high = if top.end > upto {
                top.end as int
            } else {
                upto
            };
            let step = UndoStepView {
                start: from as usize,
                end: (from + remains.len() + high - upto) as usize,
                pieces: self.pieces.subrange(from, top.start as int) + top.pieces
                    + self.pieces.subrange(top.end as int, high),
            };
            PieceTableView {
                pieces,
                undo_steps: self.undo_steps.drop_last().push(step),
                cache_idx: self.delete_mark(range),
                ..self
            }
        } else {
            PieceTableView {
                pieces,
                undo_steps: self.undo_steps.push(
                    UndoStepView {
                        start: from as usize,
                        end: (from + remains.len()) as usize,
                        pieces: self.pieces.subrange(from, upto),
                    },
                ),
                cache_idx: self.delete_mark(range),
                ..self
            }
        }
    }

    /// The table after the newest undo step was taken back.
    pub open spec fn undo(self) -> PieceTableView {
        if self.undo_steps.len() == 0 {
            self
        } else {
            PieceTableView {
                pieces: restore(self.pieces, self.undo_steps.last()),
                undo_steps: self.undo_steps.drop_last(),
                cache_idx: None,
                ..self
            }
        }
    }
}

impl PieceTableView {
    /// A fresh table is in order and holds the text it was made of.
    pub proof fn lemma_initial(text: Seq<char>)
        requires
            text.len() <= usize::MAX,
        ensures
            Self::initial(text).wf(),
            Self::initial(text).text() == text,
    {
        let table = Self::initial(text);
        if text.len() == 0 {
            assert(table.text() =~= text);
        } else {
            let piece = table.pieces[0];
            assert(text.subrange(0, text.len() as int) =~= text);
            crate::text::flat::lemma_newlines_le_len(text);
            assert(table.piece_ok(piece));
            assert(table.pieces.drop_last() =~= Seq::<Piece>::empty());
            assert(table.text_of(Seq::<Piece>::empty()) =~= Seq::<char>::empty());
            assert(table.text() =~= text);
            assert(total_len(Seq::<Piece>::empty()) == 0);
        }
    }
}

} // verus!
