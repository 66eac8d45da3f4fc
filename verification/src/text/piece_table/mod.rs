//! The piece table: the document as a list of pieces, each a stretch of one
//! of two buffers. The original buffer never changes, the added buffer only
//! grows at its end, so a stretch once handed out keeps its text.
//!
//! The buffers hold characters, one place for each, whatever its width in
//! UTF-8: the start and length of a piece, the offset of a location, columns
//! and line lengths all count characters, not bytes.

pub mod delete_lemmas;
pub mod edit;
pub mod edit_lemmas;
pub mod iterator;
pub mod laws;
pub mod lemmas;
pub mod model;
pub mod resolve;
pub mod undo;

use crate::buffer::Position;
use crate::text::chars::{chars_of, count_newlines, find_newline, push_chars, string_of};
use crate::text::flat::newlines;
use crate::text::{Range, TextBuffer};
use model::{total_len, PieceTableView};
use undo::{steps_view, UndoStep};
use vstd::prelude::*;

verus! {

/// Which of the two buffers a piece takes its text from.
#[derive(Debug, Clone, Copy, PartialEq, Eq, Structural)]
pub enum Source {
    Original,
    Added,
}

/// One of the two buffers, with the mark that tells which it is. It holds
/// the characters of its text one by one, so that offsets into it count
/// characters, not bytes.
#[derive(Debug)]
pub struct SourceBuffer {
    pub source: Source,
    pub chars: Vec<char>,
}

impl View for SourceBuffer {
    type V = Seq<char>;

    open spec fn view(&self) -> Seq<char> {
        self.chars@
    }
}

impl SourceBuffer {
    pub fn new(source: Source, text: String) -> (buffer: Self)
        ensures
            buffer.source == source,
            buffer@ == text@,
    {
        SourceBuffer { source, chars: chars_of(text.as_str()) }
    }

    pub fn len(&self) -> (len: usize)
        ensures
            len == self@.len(),
    {
        self.chars.len()
    }

    pub fn to_string(&self) -> (text: String)
        ensures
            text@ == self@,
    {
        let text = string_of(&self.chars, 0, self.chars.len());
        assert(self@.subrange(0, self@.len() as int) =~= self@);
        text
    }

    /// The number of line breaks among the characters `from..to`.
    pub fn count_newlines(&self, from: usize, to: usize) -> (count: usize)
        requires
            from <= to <= self@.len(),
        ensures
            count == newlines(self@.subrange(from as int, to as int)),
    {
        count_newlines(&self.chars, from, to)
    }

    /// The offset right behind the `line`-th line break among the characters
    /// `from..to`.
    pub fn behind_newline(&self, from: usize, to: usize, line: usize) -> (at: usize)
        requires
            from <= to <= self@.len(),
            0 < line <= newlines(self@.subrange(from as int, to as int)),
        ensures
            from < at <= to,
            self@[at - 1] == '\n',
            newlines(self@.subrange(from as int, at as int)) == line,
    {
        let mut at: usize = from;
        let mut found: usize = 0;
        assert(self@.subrange(from as int, from as int) =~= Seq::<char>::empty());
        while found < line
            invariant
                from <= at <= to <= self@.len(),
                found <= line,
                found > 0 ==> at > from && self@[at - 1] == '\n',
                newlines(self@.subrange(from as int, at as int)) == found,
                newlines(self@.subrange(from as int, to as int)) >= line,
            decreases line - found,
        {
            proof {
                crate::text::flat::lemma_newlines_split(self@, from as int, at as int, to as int);
            }
            match self.find_newline(at, to) {
                Some(next) => {
                    proof {
                        crate::text::flat::lemma_newlines_one(self@, at as int, next as int);
                        crate::text::flat::lemma_newlines_split(
                            self@,
                            from as int,
                            at as int,
                            next + 1,
                        );
                    }
                    at = next + 1;
                    found = found + 1;
                },
                None => {
                    proof {
                        crate::text::flat::lemma_newlines_zero(
                            self@.subrange(at as int, to as int),
                        );
                    }
                    return to;
                },
            }
        }
        at
    }

    /// The offset of the first line break among the characters `from..to`.
    pub fn find_newline(&self, from: usize, to: usize) -> (found: Option<usize>)
        requires
            from <= to <= self@.len(),
        ensures
            match found {
                Some(at) => from <= at < to && self@[at as int] == '\n' && forall|i: int|
                    from <= i < at ==> self@[i] != '\n',
                None => forall|i: int| from <= i < to ==> self@[i] != '\n',
            },
    {
        find_newline(&self.chars, from, to)
    }
}

/// A place in the piece list: a piece and an offset into it, counted in
/// characters. The index one past the last piece, with offset 0, is the end
/// of the document.
#[derive(Debug, Clone, Copy, PartialEq, Eq, Structural)]
pub struct Location {
    pub idx: usize,
    pub offset: usize,
}

/// A stretch of one buffer, with the number of line breaks in it. `start`
/// and `length` count characters, not bytes.
#[derive(Debug, Clone, Copy, PartialEq, Eq, Structural)]
pub struct Piece {
    pub source: Source,
    pub start: usize,
    pub length: usize,
    pub newline_count: usize,
}

impl Piece {
    /// The stretch lies inside `buffer`.
    pub open spec fn within(self, buffer: Seq<char>) -> bool {
        self.start + self.length <= buffer.len()
    }

    /// The characters of the stretch.
    pub open spec fn text_in(self, buffer: Seq<char>) -> Seq<char> {
        buffer.subrange(self.start as int, self.start + self.length)
    }

    /// The piece over `length` characters of `buffer` from `start` on.
    pub open spec fn over(source: Source, buffer: Seq<char>, start: int, length: int) -> Piece {
        Piece {
            source,
            start: start as usize,
            length: length as usize,
            newline_count: newlines(buffer.subrange(start, start + length)) as usize,
        }
    }

    /// Where `split` cuts: at `offset`, but before the last character if
    /// `offset` lies behind it.
    pub open spec fn split_point(self, offset: usize) -> int {
        if self.length > 0 && offset > self.length - 1 {
            self.length - 1
        } else {
            offset as int
        }
    }

    pub fn new(source: &SourceBuffer, start: usize, length: usize) -> (piece: Self)
        requires
            start + length <= source@.len(),
        ensures
            piece == Piece::over(source.source, source@, start as int, length as int),
    {
        assert(source.chars.len() == source@.len());
        Piece {
            source: source.source,
            start,
            length,
            newline_count: source.count_newlines(start, start + length),
        }
    }

    pub fn text(&self, source: &SourceBuffer) -> (text: String)
        requires
            self.source == source.source,
            self.within(source@),
        ensures
            text@ == self.text_in(source@),
    {
        assert(source.chars.len() == source@.len());
        string_of(&source.chars, self.start, self.start + self.length)
    }

    pub fn split(&self, offset: usize, source: &SourceBuffer) -> (parts: (Piece, Piece))
        requires
            self.source == source.source,
            self.within(source@),
            self.length > 0 || offset == 0,
        ensures
            parts.0 == Piece::over(
                self.source,
                source@,
                self.start as int,
                self.split_point(offset),
            ),
            parts.1 == Piece::over(
                self.source,
                source@,
                self.start + self.split_point(offset),
                self.length - self.split_point(offset),
            ),
    {
        assert(source.chars.len() == source@.len());
        let split = if self.length > 0 && offset > self.length - 1 {
            self.length - 1
        } else {
            offset
        };
        let left = Piece::new(source, self.start, split);
        let right = Piece::new(source, self.start + split, self.length - split);
        (left, right)
    }
}

/// A document held as a piece table, with its undo log.
pub struct PieceTableBuffer {
    original: SourceBuffer,
    added: SourceBuffer,
    pieces: Vec<Piece>,
    undo_steps: Vec<UndoStep>,
    cache_idx: Option<usize>,
}

impl View for PieceTableBuffer {
    type V = PieceTableView;

    closed spec fn view(&self) -> PieceTableView {
        PieceTableView {
            original: self.original@,
            added: self.added@,
            pieces: self.pieces@,
            undo_steps: steps_view(self.undo_steps@),
            cache_idx: self.cache_idx,
        }
    }
}

impl PieceTableBuffer {
    /// Each of the two buffers bears its own mark.
    pub closed spec fn marked(&self) -> bool {
        &&& self.original.source == Source::Original
        &&& self.added.source == Source::Added
    }

    /// The table is in order: see `PieceTableView::wf`.
    pub open spec fn wf(&self) -> bool {
        &&& self@.wf()
        &&& self.marked()
    }

    pub fn new(text: String) -> (table: Self)
        ensures
            table@ == PieceTableView::initial(text@),
            table.wf(),
            table@.text() == text@,
    {
        let original = SourceBuffer::new(Source::Original, text);
        let added = SourceBuffer { source: Source::Added, chars: Vec::new() };
        let mut pieces: Vec<Piece> = Vec::new();
        let length = original.len();
        if length > 0 {
            pieces.push(Piece::new(&original, 0, length));
        }
        let table = PieceTableBuffer {
            original,
            added,
            pieces,
            undo_steps: Vec::new(),
            cache_idx: None,
        };
        proof {
            assert(table@.undo_steps =~= Seq::empty());
            assert(table@.pieces =~= PieceTableView::initial(text@).pieces);
            assert(table@.added =~= Seq::<char>::empty());
            PieceTableView::lemma_initial(text@);
        }
        table
    }

    /// The table over the two buffers and the pieces given, with an empty
    /// undo log; none if a buffer bears the wrong mark or the pieces are not
    /// in order for the buffers.
    pub fn from_parts(original: SourceBuffer, added: SourceBuffer, pieces: Vec<Piece>) -> (made:
        Option<Self>)
        ensures
            made matches Some(table) ==> table.wf() && table@ == (PieceTableView {
                original: original@,
                added: added@,
                pieces: pieces@,
                undo_steps: Seq::empty(),
                cache_idx: None,
            }),
            made is Some <==> original.source == Source::Original && added.source == Source::Added
                && (PieceTableView {
                original: original@,
                added: added@,
                pieces: pieces@,
                undo_steps: Seq::empty(),
                cache_idx: None,
            }).wf(),
    {
        let ghost view = PieceTableView {
            original: original@,
            added: added@,
            pieces: pieces@,
            undo_steps: Seq::empty(),
            cache_idx: None,
        };
        if original.source != Source::Original || added.source != Source::Added {
            return None;
        }
        if original.len() > usize::MAX - added.len() {
            return None;
        }
        let capacity = original.len() + added.len();
        let mut total: usize = 0;
        let mut i: usize = 0;
        assert(pieces@.take(0) =~= Seq::<Piece>::empty());
        while i < pieces.len()
            invariant
                i <= pieces.len(),
                view == (PieceTableView {
                    original: original@,
                    added: added@,
                    pieces: pieces@,
                    undo_steps: Seq::empty(),
                    cache_idx: None,
                }),
                capacity == view.capacity(),
                total == total_len(pieces@.take(i as int)),
                total <= capacity,
                view.pieces_ok(pieces@.take(i as int)),
            decreases pieces.len() - i,
        {
            let piece = pieces[i];
            let bound = match piece.source {
                Source::Original => original.len(),
                Source::Added => added.len(),
            };
            proof {
                assert(pieces@.take(i + 1) =~= pieces@.take(i as int).push(piece));
                assert(pieces@.take(i + 1).drop_last() =~= pieces@.take(i as int));
                if view.wf() {
                    assert(view.piece_ok(pieces@[i as int]));
                    lemmas::lemma_total_len_prefix(pieces@, i + 1);
                }
            }
            if piece.length == 0 || piece.start > bound || piece.length > bound - piece.start {
                return None;
            }
            let counted = match piece.source {
                Source::Original => original.count_newlines(
                    piece.start,
                    piece.start + piece.length,
                ),
                Source::Added => added.count_newlines(piece.start, piece.start + piece.length),
            };
            proof {
                assert(counted == newlines(view.piece_text(piece)));
                if view.wf() {
                    assert(total_len(pieces@) <= capacity);
                }
            }
            if counted != piece.newline_count || piece.length > capacity - total {
                return None;
            }
            total = total + piece.length;
            i = i + 1;
            proof {
                assert forall|k: int| 0 <= k < pieces@.take(i as int).len() implies view.piece_ok(
                    #[trigger] pieces@.take(i as int)[k],
                ) by {
                    if k < i - 1 {
                        assert(view.piece_ok(pieces@.take(i - 1)[k]));
                    }
                }
            }
        }
        assert(pieces@.take(pieces.len() as int) =~= pieces@);
        let table = PieceTableBuffer {
            original,
            added,
            pieces,
            undo_steps: Vec::new(),
            cache_idx: None,
        };
        assert(table@.undo_steps =~= Seq::empty());
        Some(table)
    }

    pub fn original(&self) -> (buffer: &SourceBuffer)
        requires
            self.wf(),
        ensures
            buffer@ == self@.original,
            buffer.source == Source::Original,
    {
        &self.original
    }

    pub fn added(&self) -> (buffer: &SourceBuffer)
        requires
            self.wf(),
        ensures
            buffer@ == self@.added,
            buffer.source == Source::Added,
    {
        &self.added
    }

    pub fn pieces(&self) -> (pieces: &Vec<Piece>)
        ensures
            pieces@ == self@.pieces,
    {
        &self.pieces
    }

    pub fn undo_steps(&self) -> (steps: &Vec<UndoStep>)
        ensures
            steps_view(steps@) == self@.undo_steps,
    {
        &self.undo_steps
    }

    pub fn cache_idx(&self) -> (idx: Option<usize>)
        ensures
            idx == self@.cache_idx,
    {
        self.cache_idx
    }

    /// The buffer that pieces marked `source` take their text from.
    pub fn buffer(&self, source: Source) -> (buffer: &SourceBuffer)
        requires
            self.wf(),
        ensures
            buffer@ == self@.buffer(source),
            buffer.source == source,
    {
        match source {
            Source::Original => &self.original,
            Source::Added => &self.added,
        }
    }

    /// Whether the added buffer can take one more character.
    pub fn can_grow(&self) -> (can: bool)
        ensures
            can == (self@.capacity() < usize::MAX),
    {
        self.original.len() < usize::MAX - self.added.len()
    }

    pub fn to_string(&self) -> (text: String)
        requires
            self.wf(),
        ensures
            text@ == self@.text(),
    {
        let mut text = String::new();
        let mut i: usize = 0;
        assert(self.pieces@.take(0) =~= Seq::<Piece>::empty());
        while i < self.pieces.len()
            invariant
                self.wf(),
                i <= self.pieces.len(),
                text@ == self@.text_of(self.pieces@.take(i as int)),
            decreases self.pieces.len() - i,
        {
            let piece = self.pieces[i];
            let buffer = self.buffer(piece.source);
            proof {
                assert(self@.piece_ok(self@.pieces[i as int]));
                assert(self.pieces@.take(i + 1).drop_last() =~= self.pieces@.take(i as int));
            }
            push_chars(&mut text, &buffer.chars, piece.start, piece.start + piece.length);
            i = i + 1;
        }
        assert(self.pieces@.take(self.pieces.len() as int) =~= self.pieces@);
        text
    }

    /// The number of line breaks in the document.
    pub fn line_count(&self) -> (count: usize)
        requires
            self.wf(),
        ensures
            count == self@.line_count(),
    {
        let mut count: usize = 0;
        let mut i: usize = 0;
        proof {
            self@.lemma_prefix_all();
            self@.lemma_text_bounds();
            assert(self@.text().subrange(0, 0) =~= Seq::<char>::empty());
        }
        while i < self.pieces.len()
            invariant
                self.wf(),
                i <= self.pieces.len(),
                count == newlines(self@.text().subrange(0, self@.prefix_len(i as int) as int)),
                self@.prefix_len(i as int) <= self@.text().len() <= usize::MAX,
            decreases self.pieces.len() - i,
        {
            proof {
                self@.lemma_prefix_newlines(i as int);
                self@.lemma_piece_in_text(i as int);
                crate::text::flat::lemma_newlines_le_len(
                    self@.text().subrange(0, self@.prefix_len(i + 1) as int),
                );
            }
            count = count + self.pieces[i].newline_count;
            i = i + 1;
        }
        proof {
            assert(self@.text().subrange(0, self@.text().len() as int) =~= self@.text());
        }
        count
    }
}

impl TextBuffer for PieceTableBuffer {
    open spec fn contents(&self) -> Seq<char> {
        self@.text()
    }

    open spec fn ready(&self) -> bool {
        self.wf()
    }

    open spec fn has_room(&self) -> bool {
        self@.capacity() < usize::MAX
    }

    open spec fn line_of(&self, line: usize) -> usize {
        line
    }

    open spec fn inserted(&self, pos: Position, c: char, after: &Self) -> bool {
        after@ == self@.insert(pos, c)
    }

    open spec fn deleted(&self, range: Range, after: &Self) -> bool {
        after@ == self@.delete(range)
    }

    proof fn lemma_ready(&self) {
        self@.lemma_text_bounds();
    }

    fn to_string(&self) -> (text: String) {
        PieceTableBuffer::to_string(self)
    }

    fn insert(&mut self, pos: Position, c: char) {
        PieceTableBuffer::insert(self, pos, c)
    }

    fn delete(&mut self, range: Range) {
        PieceTableBuffer::delete(self, range)
    }

    open spec fn shown(&self, start: usize, count: usize) -> Seq<Seq<char>> {
        crate::text::flat::lines_from(self@.text(), start as nat, count as nat)
    }

    fn to_text(&self, start: usize, count: usize) -> (text: tui::text::Text<'static>) {
        PieceTableBuffer::to_text(self, start, count)
    }

    fn line_count(&self) -> (count: usize) {
        PieceTableBuffer::line_count(self)
    }

    fn line(&self, line: usize) -> (text: String) {
        PieceTableBuffer::line(self, line)
    }

    fn line_length(&self, line: usize) -> (length: usize) {
        PieceTableBuffer::line_length(self, line)
    }
}

} // verus!
