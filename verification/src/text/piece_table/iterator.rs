//! Reading the document character by character from a position on.

use super::PieceTableBuffer;
use crate::buffer::Position;
use crate::text::flat::offset_of;
use vstd::prelude::*;

verus! {

/// The characters of a piece table from a position to the end of the
/// document, handed out one by one.
pub struct ForwardIterator<'a> {
    table: &'a PieceTableBuffer,
    idx: usize,
    offset: usize,
}

impl<'a> View for ForwardIterator<'a> {
    type V = Seq<char>;

    /// The characters that are still to come.
    closed spec fn view(&self) -> Seq<char> {
        self.table@.text().skip(self.table@.prefix_len(self.idx as int) + self.offset)
    }
}

impl<'a> ForwardIterator<'a> {
    /// The iterator stands at a character of the document, or at its end.
    pub closed spec fn wf(&self) -> bool {
        &&& self.table.wf()
        &&& self.idx <= self.table@.pieces.len()
        &&& self.idx < self.table@.pieces.len() ==> self.offset
            < self.table@.pieces[self.idx as int].length
        &&& self.idx == self.table@.pieces.len() ==> self.offset == 0
    }

    pub fn new(table: &'a PieceTableBuffer, pos: Position) -> (it: Self)
        requires
            table.wf(),
        ensures
            it.wf(),
            it@ == table@.text().skip(offset_of(table@.text(), pos)),
    {
        let loc = table.location(pos);
        proof {
            table@.lemma_text_bounds();
            table@.lemma_location_place(pos);
        }
        ForwardIterator { table, idx: loc.idx, offset: loc.offset }
    }

    /// The next character, if one is left.
    pub fn next(&mut self) -> (next: Option<char>)
        requires
            old(self).wf(),
        ensures
            final(self).wf(),
            match next {
                Some(c) => old(self)@.len() > 0 && c == old(self)@[0] && final(self)@ == old(
                    self,
                )@.skip(1),
                None => old(self)@.len() == 0 && final(self)@ == old(self)@,
            },
    {
        let ghost text = self.table@.text();
        let ghost at = self.table@.prefix_len(self.idx as int) + self.offset;
        proof {
            self.table@.lemma_text_bounds();
            self.table@.lemma_prefix_all();
        }
        if self.idx >= self.table.pieces().len() {
            return None;
        }
        let piece = self.table.pieces()[self.idx];
        let buffer = self.table.buffer(piece.source);
        proof {
            assert(self.table@.piece_ok(self.table@.pieces[self.idx as int]));
            self.table@.lemma_piece_in_text(self.idx as int);
            assert(text[self.table@.prefix_len(self.idx as int) + self.offset] == buffer@[
                piece.start + self.offset]);
        }
        let c = buffer.chars[piece.start + self.offset];
        if self.offset + 1 < piece.length {
            self.offset = self.offset + 1;
        } else {
            self.idx = self.idx + 1;
            self.offset = 0;
        }
        proof {
            assert(text.skip(at + 1) =~= text.skip(at).skip(1));
        }
        Some(c)
    }
}

impl PieceTableBuffer {
    /// The characters from `pos` to the end of the document.
    pub fn chars(&self, pos: Position) -> (it: ForwardIterator<'_>)
        requires
            self.wf(),
        ensures
            it.wf(),
            it@ == self@.text().skip(offset_of(self@.text(), pos)),
    {
        ForwardIterator::new(self, pos)
    }
}

} // verus!
