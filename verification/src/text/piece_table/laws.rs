//! What holds of every piece table in order: edits read as on the flat
//! text, undo takes back exactly what an edit did, and positions beyond a
//! line or the document are cut down to it.

use super::model::{restore, PieceTableView};
use super::Location;
use crate::buffer::Position;
use crate::text::flat::{
    lemma_line_end, lemma_line_start_bounds, line_len, newlines, offset_of, replay,
};
use crate::text::{Edit, Range};
use vstd::prelude::*;

verus! {

impl PieceTableView {
    /// The table after one edit.
    pub open spec fn apply(self, edit: Edit) -> PieceTableView {
        match edit {
            Edit::Insert(pos, c) => self.insert(pos, c),
            Edit::Delete(range) => self.delete(range),
        }
    }

    /// The table after a run of edits, made in order.
    pub open spec fn replay(self, edits: Seq<Edit>) -> PieceTableView
        decreases edits.len(),
    {
        if edits.len() == 0 {
            self
        } else {
            self.replay(edits.drop_last()).apply(edits.last())
        }
    }

    /// The table after a run of deletes, made in order.
    pub open spec fn delete_run(self, ranges: Seq<Range>) -> PieceTableView
        decreases ranges.len(),
    {
        if ranges.len() == 0 {
            self
        } else {
            self.delete_run(ranges.drop_last()).delete(ranges.last())
        }
    }

    /// The first delete of the run gets an undo step of its own, and each
    /// one after it goes into that step.
    pub open spec fn coalescing_run(self, ranges: Seq<Range>) -> bool
        decreases ranges.len(),
    {
        if ranges.len() == 0 {
            false
        } else if ranges.len() == 1 {
            !self.coalesces(ranges[0])
        } else {
            &&& self.coalescing_run(ranges.drop_last())
            &&& self.delete_run(ranges.drop_last()).coalesces(ranges.last())
        }
    }

    /// Any run of edits, inserts and deletes in any order, leaves the piece
    /// table in order and with the text that the same edits make of the flat
    /// text.
    pub proof fn lemma_replay(self, edits: Seq<Edit>)
        requires
            self.wf(),
            self.capacity() + edits.len() <= usize::MAX,
        ensures
            self.replay(edits).wf(),
            self.replay(edits).capacity() <= self.capacity() + edits.len(),
            self.replay(edits).text() == replay(self.text(), edits),
        decreases edits.len(),
    {
        if edits.len() > 0 {
            self.lemma_replay(edits.drop_last());
            let before = self.replay(edits.drop_last());
            match edits.last() {
                Edit::Insert(pos, c) => {
                    before.lemma_insert(pos, c);
                },
                Edit::Delete(range) => {
                    before.lemma_delete(range);
                },
            }
        }
    }

    /// Typing on a line that the document has reads as on the flat text: with
    /// the line starting at `start` and ending at `end`, the character comes
    /// to stand at `start + pos.col`, or at `end` if the column lies beyond
    /// the line, between the text before that offset and the text from it on.
    pub proof fn lemma_insert_in_line(self, pos: Position, c: char)
        requires
            self.wf(),
            self.capacity() < usize::MAX,
            pos.line <= newlines(self.text()),
        ensures
            ({
                let text = self.text();
                let start = crate::text::flat::line_start_offset(text, pos.line as nat);
                let end = crate::text::flat::line_end_offset(text, pos.line as nat);
                let at = if start + pos.col > end {
                    end
                } else {
                    start + pos.col
                };
                &&& 0 <= start <= at <= end <= text.len()
                &&& self.insert(pos, c).text() == text.subrange(0, at) + seq![c] + text.subrange(
                    at,
                    text.len() as int,
                )
            }),
    {
        self.lemma_insert(pos, c);
        crate::text::flat::lemma_offset_of(self.text(), pos, c);
        crate::text::flat::lemma_offset_of_bounds(self.text(), pos);
    }

    /// Undo right after a character was typed gives back the list, the log
    /// and the text as they were, unless the character extended the piece
    /// of the one typed before it: that one left the log as it was.
    pub proof fn lemma_undo_insert(self, pos: Position, c: char)
        requires
            self.wf(),
            self.capacity() < usize::MAX,
            !self.extends_left(self.location(pos)),
        ensures
            self.insert(pos, c).undo().pieces == self.pieces,
            self.insert(pos, c).undo().undo_steps == self.undo_steps,
            self.insert(pos, c).undo().text() == self.text(),
    {
        let after = self.insert(pos, c);
        let undone = after.undo();
        self.lemma_text_bounds();
        self.lemma_location_place(pos);
        self.lemma_insert(pos, c);
        after.lemma_text_bounds();
        assert(after.undo_steps.drop_last() =~= self.undo_steps);
        assert(restore(after.pieces, after.undo_steps.last()) =~= self.pieces);
        self.lemma_grow_keeps_all(c, self.pieces);
        self.with_added(c).lemma_same_buffers(undone, self.pieces);
    }

    /// Undo right after a delete that got an undo step of its own gives
    /// back the list, the log and the text as they were.
    pub proof fn lemma_undo_delete(self, range: Range)
        requires
            self.wf(),
            !self.coalesces(range),
        ensures
            self.delete(range).undo().pieces == self.pieces,
            self.delete(range).undo().undo_steps == self.undo_steps,
            self.delete(range).undo().text() == self.text(),
    {
        self.lemma_delete_step(range);
        self.lemma_same_buffers(self.delete(range).undo(), self.pieces);
    }

    /// Undo right after a delete that went into the newest undo step leads
    /// where undo before that delete would have led.
    pub proof fn lemma_undo_coalesced(self, range: Range)
        requires
            self.wf(),
            self.coalesces(range),
        ensures
            self.delete(range).undo().pieces == self.undo().pieces,
            self.delete(range).undo().undo_steps == self.undo().undo_steps,
            self.delete(range).undo().text() == self.undo().text(),
    {
        self.lemma_delete_step(range);
        self.undo().lemma_same_buffers(self.delete(range).undo(), self.undo().pieces);
    }

    /// One undo after a run of deletes, of which each but the first went
    /// into the step of the first, gives back the list, the log and the text
    /// as they were before the first.
    pub proof fn lemma_undo_run(self, ranges: Seq<Range>)
        requires
            self.wf(),
            self.coalescing_run(ranges),
        ensures
            self.delete_run(ranges).wf(),
            self.delete_run(ranges).original == self.original,
            self.delete_run(ranges).added == self.added,
            self.delete_run(ranges).undo().pieces == self.pieces,
            self.delete_run(ranges).undo().undo_steps == self.undo_steps,
            self.delete_run(ranges).undo().text() == self.text(),
        decreases ranges.len(),
    {
        if ranges.len() == 1 {
            assert(ranges.drop_last() =~= Seq::<Range>::empty());
            assert(self.delete_run(ranges.drop_last()) == self);
            self.lemma_delete(ranges[0]);
            self.lemma_undo_delete(ranges[0]);
        } else {
            let before = self.delete_run(ranges.drop_last());
            self.lemma_undo_run(ranges.drop_last());
            before.lemma_delete(ranges.last());
            before.lemma_undo_coalesced(ranges.last());
            self.lemma_same_buffers(self.delete_run(ranges).undo(), self.pieces);
        }
    }

    /// What a delete that took something leaves before the place where it
    /// started: the pieces before its first, and of its first what lies
    /// before the range.
    proof fn lemma_delete_front(self, range: Range)
        requires
            self.wf(),
            self.deletes_some(range),
        ensures
            self.delete(range).wf(),
            self.delete(range).cache_idx == self.delete_mark(range),
            self.delete(range).text().len() >= offset_of(self.text(), range.start),
            self.offset_at(self.location(range.start)) == offset_of(self.text(), range.start),
            self.location(range.start).idx < self.pieces.len(),
            self.delete(range).prefix_len(self.location(range.start).idx as int)
                == self.prefix_len(self.location(range.start).idx as int),
            self.location(range.start).offset > 0 ==> self.location(range.start).idx
                < self.delete(range).pieces.len() && self.delete(range).pieces[self.location(
                range.start,
            ).idx as int].length == self.location(range.start).offset,
            self.location(range.start).offset == 0 && self.location(range.start).idx > 0
                ==> self.delete(range).pieces[self.location(range.start).idx - 1]
                == self.pieces[self.location(range.start).idx - 1] && self.prefix_len(
                self.location(range.start).idx as int,
            ) == self.delete(range).prefix_len(self.location(range.start).idx - 1)
                + self.pieces[self.location(range.start).idx - 1].length,
    {
        let after = self.delete(range);
        let loc = self.location(range.start);
        let idx = loc.idx as int;
        self.lemma_text_bounds();
        self.lemma_delete(range);
        self.lemma_delete_shape(range);
        self.lemma_delete_pieces(range);
        self.lemma_delete_remains(range);
        assert(after.pieces == self.delete_pieces(range));
        assert(after.pieces.take(idx) =~= self.pieces.take(idx));
        crate::text::flat::lemma_offset_of_bounds(self.text(), range.start);
        if loc.offset > 0 {
            assert(self.piece_ok(self.pieces[idx]));
            self.lemma_cut(self.pieces[idx], loc.offset as int);
            assert(after.pieces[idx] == self.head_of(self.pieces[idx], loc.offset as int));
        } else if idx > 0 {
            assert(after.pieces[idx - 1] == self.pieces[idx - 1]);
            assert(after.pieces.take(idx - 1) =~= self.pieces.take(idx - 1));
            self.lemma_piece_in_text(idx - 1);
        }
    }

    /// After a delete that took something, the delete of the one character
    /// before it, as Backspace makes it, goes into the same undo step.
    pub proof fn lemma_backspace_coalesces(self, range: Range, next: Position)
        requires
            self.wf(),
            self.deletes_some(range),
            offset_of(self.delete(range).text(), next) + 1 == offset_of(
                self.text(),
                range.start,
            ),
        ensures
            self.delete(range).coalesces(Range { start: next, length: 1 }),
            self.delete(range).deletes_some(Range { start: next, length: 1 }),
    {
        let after = self.delete(range);
        let loc = self.location(range.start);
        self.lemma_delete_front(range);
        self.lemma_prefix_all();
        crate::text::flat::lemma_offset_of_bounds(after.text(), next);
        let place = if loc.offset > 0 {
            Location { idx: loc.idx, offset: (loc.offset - 1) as usize }
        } else {
            Location {
                idx: (loc.idx - 1) as usize,
                offset: (self.pieces[loc.idx - 1].length - 1) as usize,
            }
        };
        if loc.offset == 0 {
            assert(loc.idx > 0);
            assert(self.piece_ok(self.pieces[loc.idx - 1]));
        }
        after.lemma_locate_is(place);
    }

    /// A delete goes into the undo step of the delete before it only if it
    /// ends where that one started: no delete elsewhere joins the step.
    pub proof fn lemma_coalesces_adjacent(self, range: Range, next: Range)
        requires
            self.wf(),
            self.delete(range).coalesces(next),
        ensures
            self.delete(range).delete_end(next) == offset_of(self.text(), range.start),
    {
        let after = self.delete(range);
        let loc = self.location(range.start);
        self.lemma_text_bounds();
        self.lemma_delete(range);
        after.lemma_delete_shape(next);
        let last = after.delete_last(next);
        after.lemma_piece_in_text(last.idx as int);
        if self.deletes_some(range) {
            self.lemma_delete_front(range);
        } else {
            self.lemma_delete_pieces_none(range);
            self.lemma_location_place(range.start);
            assert(after.pieces == self.delete_pieces(range));
            assert(after.pieces.take(loc.idx as int) =~= self.pieces.take(loc.idx as int));
        }
    }

    /// A table that has no piece marked, as after an insert or an undo,
    /// gives the next delete an undo step of its own.
    pub proof fn lemma_unmarked_is_fresh(self, range: Range)
        requires
            self.cache_idx is None,
        ensures
            !self.coalesces(range),
    {
    }

    /// The run is one of Backspaces: each delete takes one character, the
    /// first does not go into an older undo step, and each one after it
    /// takes the character before the one that the delete before it took.
    pub open spec fn backspace_run(self, ranges: Seq<Range>) -> bool
        decreases ranges.len(),
    {
        if ranges.len() == 0 {
            false
        } else if ranges.len() == 1 {
            &&& ranges[0].length == 1
            &&& self.deletes_some(ranges[0])
            &&& !self.coalesces(ranges[0])
        } else {
            let earlier = ranges.drop_last();
            &&& self.backspace_run(earlier)
            &&& ranges.last().length == 1
            &&& offset_of(self.delete_run(earlier).text(), ranges.last().start) + 1 == offset_of(
                self.delete_run(earlier.drop_last()).text(),
                earlier.last().start,
            )
        }
    }

    /// One undo after a run of Backspaces gives back the list, the log and
    /// the text as they were before the first of them.
    pub proof fn lemma_undo_backspaces(self, ranges: Seq<Range>)
        requires
            self.wf(),
            self.backspace_run(ranges),
        ensures
            self.coalescing_run(ranges),
            self.delete_run(ranges.drop_last()).wf(),
            self.delete_run(ranges.drop_last()).deletes_some(ranges.last()),
            self.delete_run(ranges).undo().pieces == self.pieces,
            self.delete_run(ranges).undo().undo_steps == self.undo_steps,
            self.delete_run(ranges).undo().text() == self.text(),
        decreases ranges.len(),
    {
        if ranges.len() == 1 {
            assert(ranges.drop_last() =~= Seq::<Range>::empty());
            assert(self.delete_run(ranges.drop_last()) == self);
        } else {
            let earlier = ranges.drop_last();
            let start = self.delete_run(earlier.drop_last());
            self.lemma_undo_backspaces(earlier);
            let back = Range { start: ranges.last().start, length: 1 };
            assert(back == ranges.last());
            start.lemma_backspace_coalesces(earlier.last(), ranges.last().start);
            self.lemma_undo_run(earlier);
        }
        self.lemma_undo_run(ranges);
    }

    /// A column beyond the end of its line addresses the same place as the
    /// end of the line.
    pub proof fn lemma_location_clamps(self, line: usize, col: usize)
        requires
            self.wf(),
            col >= line_len(self.text(), line as nat),
        ensures
            line_len(self.text(), line as nat) <= usize::MAX,
            self.location(Position { line, col }) == self.location(
                Position { line, col: line_len(self.text(), line as nat) as usize },
            ),
            offset_of(self.text(), Position { line, col }) == crate::text::flat::line_end_offset(
                self.text(),
                line as nat,
            ),
    {
        self.lemma_text_bounds();
        lemma_line_start_bounds(self.text(), 0, line as nat);
        lemma_line_end(self.text(), crate::text::flat::line_start_offset(self.text(), line as nat));
    }

    /// A line that the document does not have starts at the end of the
    /// piece list, and any column on it addresses that place too.
    pub proof fn lemma_line_beyond(self, line: usize, col: usize)
        requires
            self.wf(),
            line > newlines(self.text()),
        ensures
            self.line_start(line) == (Location { idx: self.pieces.len() as usize, offset: 0 }),
            self.location(Position { line, col }) == self.line_start(line),
            self.line_length(line) == 0,
    {
        self.lemma_text_bounds();
        crate::text::flat::lemma_line_start_beyond(self.text(), line as nat);
        self.lemma_locate_end(offset_of(self.text(), Position { line, col }));
    }
}

} // verus!
