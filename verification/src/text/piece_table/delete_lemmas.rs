//! What deleting does to a table in order.

use super::lemmas::{lemma_total_len_concat, lemma_total_len_one};
use super::model::{history_ok, locate_from, restore, splice, total_len, PieceTableView, UndoStepView};
use super::{Location, Piece};
use crate::text::flat::{delete_at, lemma_offset_of_bounds, offset_of, remove_run};
use crate::text::Range;
use vstd::prelude::*;

verus! {

impl PieceTableView {
    /// Where a delete that takes something starts and ends, in pieces and
    /// in offsets.
    pub proof fn lemma_delete_shape(self, range: Range)
        requires
            self.wf(),
            self.deletes_some(range),
        ensures
            offset_of(self.text(), range.start) < self.delete_end(range) <= self.text().len(),
            self.location(range.start).idx <= self.delete_last(range).idx < self.pieces.len(),
            self.location(range.start).offset < self.pieces[self.location(
                range.start,
            ).idx as int].length,
            self.delete_last(range).offset < self.pieces[self.delete_last(range).idx as int].length,
            self.offset_at(self.location(range.start)) == offset_of(self.text(), range.start),
            self.offset_at(self.delete_last(range)) + 1 == self.delete_end(range),
            self.location(range.start).idx == self.delete_last(range).idx ==> self.location(
                range.start,
            ).offset <= self.delete_last(range).offset,
    {
        let from = offset_of(self.text(), range.start);
        let end = self.delete_end(range);
        let loc = self.location(range.start);
        let last = self.delete_last(range);
        lemma_offset_of_bounds(self.text(), range.start);
        self.lemma_text_bounds();
        self.lemma_location_place(range.start);
        self.lemma_prefix_all();
        self.lemma_locate_within(end - 1);
        if last.idx < loc.idx {
            self.lemma_prefix_mono(last.idx + 1, loc.idx as int);
            self.lemma_piece_in_text(last.idx as int);
        }
    }

    /// What is left of the pieces that a delete touches is in order and
    /// stands for the text around what was taken.
    pub proof fn lemma_delete_remains(self, range: Range)
        requires
            self.wf(),
            self.deletes_some(range),
        ensures
            self.pieces_ok(self.delete_remains(range)),
            self.delete_remains(range).len() <= 2,
            self.text_of(self.delete_remains(range)) == self.text().subrange(
                self.prefix_len(self.location(range.start).idx as int) as int,
                offset_of(self.text(), range.start),
            ) + self.text().subrange(
                self.delete_end(range),
                self.prefix_len(self.delete_upto(range)) as int,
            ),
            self.delete_end(range) <= self.prefix_len(self.delete_upto(range)) <= self.text().len(),
            total_len(self.delete_remains(range)) == (offset_of(self.text(), range.start)
                - self.prefix_len(self.location(range.start).idx as int)) + (self.prefix_len(
                self.delete_upto(range),
            ) - self.delete_end(range)),
    {
        let loc = self.location(range.start);
        let last = self.delete_last(range);
        let first = self.pieces[loc.idx as int];
        let final_piece = self.pieces[last.idx as int];
        let text = self.text();
        self.lemma_delete_shape(range);
        self.lemma_piece_in_text(loc.idx as int);
        self.lemma_piece_in_text(last.idx as int);
        assert(self.piece_ok(first));
        assert(self.piece_ok(final_piece));
        self.lemma_cut(first, loc.offset as int);
        self.lemma_cut(final_piece, last.offset + 1);
        let head = self.head_of(first, loc.offset as int);
        let tail = self.tail_of(final_piece, last.offset + 1);
        let left = if loc.offset > 0 {
            seq![head]
        } else {
            Seq::<Piece>::empty()
        };
        let right = if self.delete_keeps_right(range) {
            seq![tail]
        } else {
            Seq::<Piece>::empty()
        };
        self.lemma_text_of_one(head);
        self.lemma_text_of_one(tail);
        lemma_total_len_one(head);
        lemma_total_len_one(tail);
        assert(self.text_of(Seq::<Piece>::empty()) =~= Seq::<char>::empty());
        assert(total_len(Seq::<Piece>::empty()) == 0);
        self.lemma_text_of_concat(left, right);
        lemma_total_len_concat(left, right);
        assert(self.pieces_ok(left));
        assert(self.pieces_ok(right));
        self.lemma_pieces_ok_concat(left, right);
        let before = self.prefix_len(loc.idx as int) as int;
        let behind = self.prefix_len(last.idx as int) as int;
        assert(self.text_of(left) =~= text.subrange(before, before + loc.offset)) by {
            assert(self.piece_text(first).subrange(0, loc.offset as int) =~= text.subrange(
                before,
                before + loc.offset,
            ));
        }
        assert(self.text_of(right) =~= text.subrange(
            behind + last.offset + 1,
            behind + final_piece.length,
        )) by {
            assert(self.piece_text(final_piece).subrange(
                last.offset + 1,
                final_piece.length as int,
            ) =~= text.subrange(behind + last.offset + 1, behind + final_piece.length));
        }
    }

    /// A delete that takes nothing leaves the list as it is.
    pub proof fn lemma_delete_pieces_none(self, range: Range)
        requires
            self.wf(),
            !self.deletes_some(range),
        ensures
            self.delete_pieces(range) == self.pieces,
            self.text() == delete_at(self.text(), range.start, range.length as nat),
            self.delete_upto(range) == self.location(range.start).idx <= self.pieces.len(),
            self.delete_remains(range).len() == 0,
    {
        let text = self.text();
        let start = offset_of(text, range.start);
        lemma_offset_of_bounds(text, range.start);
        self.lemma_text_bounds();
        self.lemma_location_place(range.start);
        assert(self.delete_pieces(range) =~= self.pieces);
        assert(text =~= remove_run(text, start, range.length as nat));
    }

    /// The list that a delete leaves is in order and stands for the text
    /// without what was taken.
    pub proof fn lemma_delete_pieces_some(self, range: Range)
        requires
            self.wf(),
            self.deletes_some(range),
        ensures
            self.location(range.start).idx < self.delete_upto(range) <= self.pieces.len(),
            self.pieces_ok(self.delete_pieces(range)),
            self.text_of(self.delete_pieces(range)) == delete_at(
                self.text(),
                range.start,
                range.length as nat,
            ),
            total_len(self.delete_pieces(range)) < total_len(self.pieces),
    {
        let text = self.text();
        let from = self.location(range.start).idx as int;
        let upto = self.delete_upto(range);
        let remains = self.delete_remains(range);
        let start = offset_of(text, range.start);
        let end = self.delete_end(range);
        self.lemma_text_bounds();
        self.lemma_delete_shape(range);
        self.lemma_delete_remains(range);
        self.lemma_pieces_ok_splice(self.pieces, from, upto, remains);
        self.lemma_splice_text(self.pieces, from, upto, remains);
        self.lemma_text_of_splice(self.pieces, from, upto, remains);
        self.lemma_prefix_mono(from, upto);
        assert(self.pieces.take(from) =~= self.pieces.subrange(0, from));
        assert(self.pieces.take(upto) =~= self.pieces.subrange(0, upto));
        let before = self.prefix_len(from) as int;
        let behind = self.prefix_len(upto) as int;
        lemma_seq_remove_within(text, before, start, end, behind);
    }

    /// The list that a delete leaves is in order and stands for the text
    /// without what was taken.
    pub proof fn lemma_delete_pieces(self, range: Range)
        requires
            self.wf(),
        ensures
            self.location(range.start).idx <= self.delete_upto(range) <= self.pieces.len(),
            self.pieces_ok(self.delete_pieces(range)),
            self.text_of(self.delete_pieces(range)) == delete_at(
                self.text(),
                range.start,
                range.length as nat,
            ),
            total_len(self.delete_pieces(range)) <= total_len(self.pieces),
            self.delete_pieces(range).len() <= usize::MAX,
            self.delete_remains(range).len() <= 2,
    {
        if self.deletes_some(range) {
            self.lemma_delete_pieces_some(range);
            self.lemma_delete_remains(range);
        } else {
            self.lemma_delete_pieces_none(range);
        }
        self.lemma_text_bounds();
        self.lemma_count_le_len(self.delete_pieces(range));
    }
    /// A delete that gets an undo step of its own keeps the table in order.
    proof fn lemma_delete_fresh(self, range: Range)
        requires
            self.wf(),
            !self.coalesces(range),
        ensures
            self.delete(range).wf(),
            restore(self.delete(range).pieces, self.delete(range).undo_steps.last())
                == self.pieces,
            self.delete(range).undo_steps.drop_last() == self.undo_steps,
    {
        let after = self.delete(range);
        let from = self.location(range.start).idx as int;
        let upto = self.delete_upto(range);
        let remains = self.delete_remains(range);
        let step = after.undo_steps.last();
        self.lemma_delete_pieces(range);
        self.lemma_text_bounds();
        assert(after.pieces == self.delete_pieces(range));
        self.lemma_same_buffers(after, after.pieces);
        assert(after.undo_steps.drop_last() =~= self.undo_steps);
        assert(step.pieces == self.pieces.subrange(from, upto));
        assert(restore(after.pieces, step) =~= self.pieces);
        self.lemma_pieces_ok_subrange(self.pieces, from, upto);
        self.lemma_same_buffers(after, step.pieces);
        assert forall|i: int| 0 <= i < after.undo_steps.len() implies after.pieces_ok(
            #[trigger] after.undo_steps[i].pieces,
        ) by {
            if i < self.undo_steps.len() {
                assert(after.undo_steps[i] == self.undo_steps[i]);
                self.lemma_same_buffers(after, self.undo_steps[i].pieces);
            }
        }
    }

    /// A delete that goes into the newest undo step keeps the table in
    /// order, and undoing it leads where undoing that step led before.
    proof fn lemma_delete_merged(self, range: Range)
        requires
            self.wf(),
            self.coalesces(range),
        ensures
            self.delete(range).wf(),
            self.undo_steps.len() > 0,
            restore(self.delete(range).pieces, self.delete(range).undo_steps.last()) == restore(
                self.pieces,
                self.undo_steps.last(),
            ),
            self.delete(range).undo_steps.drop_last() == self.undo_steps.drop_last(),
    {
        let after = self.delete(range);
        let from = self.location(range.start).idx as int;
        let upto = self.delete_upto(range);
        let remains = self.delete_remains(range);
        let top = self.undo_steps.last();
        let step = after.undo_steps.last();
        let high = if top.end > upto {
            top.end as int
        } else {
            upto
        };
        self.lemma_delete_pieces(range);
        self.lemma_delete_shape(range);
        self.lemma_text_bounds();
        assert(after.pieces == self.delete_pieces(range));
        self.lemma_same_buffers(after, after.pieces);
        assert(after.undo_steps.drop_last() =~= self.undo_steps.drop_last());
        assert(from <= top.start <= upto <= high <= self.pieces.len());
        assert(top.start <= top.end <= high);
        assert(step.start == from);
        assert(step.end == from + remains.len() + high - upto);
        assert(step.pieces == self.pieces.subrange(from, top.start as int) + top.pieces
            + self.pieces.subrange(top.end as int, high));
        assert(restore(after.pieces, step) =~= restore(self.pieces, top));
        self.lemma_pieces_ok_subrange(self.pieces, from, top.start as int);
        self.lemma_pieces_ok_subrange(self.pieces, top.end as int, high);
        assert(self.pieces_ok(top.pieces));
        self.lemma_pieces_ok_concat(self.pieces.subrange(from, top.start as int), top.pieces);
        self.lemma_pieces_ok_concat(
            self.pieces.subrange(from, top.start as int) + top.pieces,
            self.pieces.subrange(top.end as int, high),
        );
        self.lemma_same_buffers(after, step.pieces);
        assert forall|i: int| 0 <= i < after.undo_steps.len() implies after.pieces_ok(
            #[trigger] after.undo_steps[i].pieces,
        ) by {
            if i < self.undo_steps.len() - 1 {
                assert(after.undo_steps[i] == self.undo_steps[i]);
                self.lemma_same_buffers(after, self.undo_steps[i].pieces);
            }
        }
    }

    /// Deleting keeps the table in order and takes the characters of the
    /// range out of the text.
    pub proof fn lemma_delete(self, range: Range)
        requires
            self.wf(),
        ensures
            self.delete(range).wf(),
            self.delete(range).text() == delete_at(
                self.text(),
                range.start,
                range.length as nat,
            ),
    {
        self.lemma_delete_pieces(range);
        self.lemma_same_buffers(self.delete(range), self.delete(range).pieces);
        if self.coalesces(range) {
            self.lemma_delete_merged(range);
        } else {
            self.lemma_delete_fresh(range);
        }
    }

    /// What the newest undo step holds after a delete: the list as it was,
    /// if the delete got a step of its own; what the newest step held
    /// before, if the delete went into it.
    pub proof fn lemma_delete_step(self, range: Range)
        requires
            self.wf(),
        ensures
            self.delete(range).undo_steps.len() > 0,
            self.coalesces(range) ==> self.undo_steps.len() > 0 && self.delete(range).undo().pieces
                == self.undo().pieces && self.delete(range).undo().undo_steps
                == self.undo().undo_steps,
            !self.coalesces(range) ==> self.delete(range).undo().pieces == self.pieces
                && self.delete(range).undo().undo_steps == self.undo_steps,
    {
        if self.coalesces(range) {
            self.lemma_delete_merged(range);
        } else {
            self.lemma_delete_fresh(range);
        }
    }

    /// Undoing keeps the table in order.
    pub proof fn lemma_undo(self)
        requires
            self.wf(),
        ensures
            self.undo().wf(),
    {
        if self.undo_steps.len() > 0 {
            let after = self.undo();
            let top = self.undo_steps.last();
            assert(self.pieces_ok(top.pieces));
            self.lemma_pieces_ok_splice(self.pieces, top.start as int, top.end as int, top.pieces);
            self.lemma_same_buffers(after, after.pieces);
            assert forall|i: int| 0 <= i < after.undo_steps.len() implies after.pieces_ok(
                #[trigger] after.undo_steps[i].pieces,
            ) by {
                assert(after.undo_steps[i] == self.undo_steps[i]);
                self.lemma_same_buffers(after, self.undo_steps[i].pieces);
            }
        }
    }
}

/// A sequence without a stretch, put together from four parts.
pub proof fn lemma_seq_remove_within(s: Seq<char>, before: int, start: int, end: int, behind: int)
    requires
        0 <= before <= start <= end <= behind <= s.len(),
    ensures
        s.subrange(0, before) + (s.subrange(before, start) + s.subrange(end, behind)) + s.subrange(
            behind,
            s.len() as int,
        ) == s.subrange(0, start) + s.subrange(end, s.len() as int),
{
    assert(s.subrange(0, before) + (s.subrange(before, start) + s.subrange(end, behind))
        + s.subrange(behind, s.len() as int) =~= s.subrange(0, start) + s.subrange(
        end,
        s.len() as int,
    ));
}

} // verus!
