//! Typing and deleting.

use super::model;
use super::undo::{steps_view, UndoStep};
use super::{Location, Piece, PieceTableBuffer, Source};
use crate::buffer::Position;
use crate::text::flat::{delete_at, insert_at, offset_of};
use crate::text::Range;
use vstd::prelude::*;

verus! {

/// Takes the pieces `start..end` out of the list, puts `with` in their
/// place, and hands out what was taken.
pub fn splice(pieces: &mut Vec<Piece>, start: usize, end: usize, with: Vec<Piece>) -> (removed: Vec<
    Piece,
>)
    requires
        start <= end <= old(pieces)@.len(),
    ensures
        final(pieces)@ == model::splice(old(pieces)@, start as int, end as int, with@),
        removed@ == old(pieces)@.subrange(start as int, end as int),
{
    let mut with = with;
    let mut tail = pieces.split_off(end);
    let removed = pieces.split_off(start);
    pieces.append(&mut with);
    pieces.append(&mut tail);
    removed
}

impl PieceTableBuffer {
    /// Types `c` at `pos`. A character typed right behind the one typed
    /// before it extends that one's piece and leaves the undo log as it
    /// is; any other cuts the piece at `pos` in two, or stands behind the
    /// last piece, and gets an undo step of its own.
    pub fn insert(&mut self, pos: Position, c: char)
        requires
            old(self).wf(),
            old(self)@.capacity() < usize::MAX,
        ensures
            final(self).wf(),
            final(self)@ == old(self)@.insert(pos, c),
            final(self)@.text() == insert_at(old(self)@.text(), pos, c),
    {
        let ghost before = self@;
        let loc = self.location(pos);
        proof {
            before.lemma_insert(pos, c);
            before.lemma_text_bounds();
            before.lemma_location_place(pos);
        }
        let at = self.added.len();
        let typed = Piece {
            source: Source::Added,
            start: at,
            length: 1,
            newline_count: if c == '\n' {
                1
            } else {
                0
            },
        };
        if loc.idx > 0 && loc.offset == 0 {
            let left = self.pieces[loc.idx - 1];
            proof {
                assert(before.piece_ok(before.pieces[loc.idx - 1]));
                crate::text::flat::lemma_newlines_le_len(before.piece_text(left));
            }
            if left.source == Source::Added && left.start + left.length == at {
                let longer = Piece {
                    source: left.source,
                    start: left.start,
                    length: left.length + 1,
                    newline_count: if c == '\n' {
                        left.newline_count + 1
                    } else {
                        left.newline_count
                    },
                };
                self.added.chars.push(c);
                self.pieces[loc.idx - 1] = longer;
                self.cache_idx = None;
                proof {
                    assert(self@.pieces =~= before.insert(pos, c).pieces);
                    assert(self@ == before.insert(pos, c));
                }
                return ;
            }
        }
        if loc.idx >= self.pieces.len() {
            self.added.chars.push(c);
            self.pieces.push(typed);
            self.undo_steps.push(UndoStep::new(loc.idx, loc.idx + 1, Vec::new()));
            self.cache_idx = None;
            proof {
                assert(self@.undo_steps =~= before.insert(pos, c).undo_steps);
                assert(self@ == before.insert(pos, c));
            }
            return ;
        }
        let old = self.pieces[loc.idx];
        let mut new_pieces: Vec<Piece> = Vec::new();
        if loc.offset == 0 {
            new_pieces.push(typed);
            new_pieces.push(old);
        } else {
            proof {
                assert(before.piece_ok(before.pieces[loc.idx as int]));
            }
            let (head, tail) = old.split(loc.offset, self.buffer(old.source));
            new_pieces.push(head);
            new_pieces.push(typed);
            new_pieces.push(tail);
        }
        let count = new_pieces.len();
        let ghost replacing = new_pieces@;
        self.added.chars.push(c);
        let removed = splice(&mut self.pieces, loc.idx, loc.idx + 1, new_pieces);
        assert(loc.idx + count <= self.pieces.len());
        self.undo_steps.push(UndoStep::new(loc.idx, loc.idx + count, removed));
        self.cache_idx = None;
        proof {
            let after = before.insert(pos, c);
            assert(removed@ =~= seq![old]);
            if loc.offset == 0 {
                assert(replacing =~= seq![typed, old]);
            } else {
                assert(replacing =~= seq![
                    before.head_of(old, loc.offset as int),
                    typed,
                    before.tail_of(old, loc.offset as int),
                ]);
            }
            assert(self@.pieces == after.pieces);
            assert(self@.undo_steps =~= after.undo_steps);
            assert(self@ == after);
        }
    }

    /// Walks the pieces that a delete of `range` touches: one past the last
    /// of them, what is left of the first and the last, and whether the end
    /// of the last stays.
    fn delete_walk(&self, range: Range, loc: Location) -> (walk: (usize, Vec<Piece>, bool))
        requires
            self.wf(),
            loc == self@.location(range.start),
        ensures
            walk.0 == self@.delete_upto(range),
            walk.1@ == self@.delete_remains(range),
            (walk.0 > loc.idx) == self@.deletes_some(range),
            self@.deletes_some(range) ==> self@.delete_last(range).idx == walk.0 - 1 && walk.2
                == self@.delete_keeps_right(range),
            !self@.deletes_some(range) ==> !walk.2,
    {
        let ghost before = self@;
        let ghost text = before.text();
        let ghost start = offset_of(text, range.start);
        proof {
            before.lemma_text_bounds();
            before.lemma_location_place(range.start);
            before.lemma_prefix_all();
            crate::text::flat::lemma_offset_of_bounds(text, range.start);
        }
        let mut piece_idx: usize = loc.idx;
        let mut offset: usize = loc.offset;
        let mut remaining: usize = range.length;
        let mut new_pieces: Vec<Piece> = Vec::new();
        let mut has_right = false;
        let ghost mut cut: int = 0;
        let ghost mut reached: int = start;
        while remaining > 0 && piece_idx < self.pieces.len() && !has_right
            invariant
                self.wf(),
                self@ == before,
                text == before.text(),
                start == before.offset_at(loc),
                before.prefix_len(before.pieces.len() as int) == text.len(),
                loc.idx <= piece_idx <= before.pieces.len(),
                loc.idx < before.pieces.len() ==> loc.offset < before.pieces[loc.idx as int].length,
                offset == if piece_idx == loc.idx {
                    loc.offset
                } else {
                    0
                },
                start <= reached <= text.len(),
                reached - start + remaining == range.length,
                !has_right ==> reached == before.prefix_len(piece_idx as int) + offset,
                has_right ==> remaining == 0,
                piece_idx == loc.idx ==> !has_right && new_pieces@.len() == 0,
                piece_idx > loc.idx ==> {
                    &&& start < reached
                    &&& reached == before.prefix_len(piece_idx - 1) + cut
                    &&& 0 < cut <= before.pieces[piece_idx - 1].length
                    &&& has_right == (cut < before.pieces[piece_idx - 1].length)
                    &&& new_pieces@ == (if loc.offset > 0 {
                        seq![before.head_of(before.pieces[loc.idx as int], loc.offset as int)]
                    } else {
                        Seq::<Piece>::empty()
                    }) + (if has_right {
                        seq![before.tail_of(before.pieces[piece_idx - 1], cut)]
                    } else {
                        Seq::<Piece>::empty()
                    })
                },
            decreases before.pieces.len() - piece_idx,
        {
            let piece = self.pieces[piece_idx];
            proof {
                assert(before.piece_ok(before.pieces[piece_idx as int]));
                before.lemma_piece_in_text(piece_idx as int);
            }
            let available = piece.length - offset;
            if offset != 0 {
                let (head, _) = piece.split(offset, self.buffer(piece.source));
                new_pieces.push(head);
            }
            if available > remaining {
                let (_, tail) = piece.split(offset + remaining, self.buffer(piece.source));
                new_pieces.push(tail);
                has_right = true;
                proof {
                    cut = offset + remaining;
                    reached = reached + remaining;
                }
                remaining = 0;
            } else {
                proof {
                    cut = piece.length as int;
                    reached = reached + available;
                }
                remaining = remaining - available;
            }
            proof {
                let left = if loc.offset > 0 {
                    seq![before.head_of(before.pieces[loc.idx as int], loc.offset as int)]
                } else {
                    Seq::<Piece>::empty()
                };
                let right = if has_right {
                    seq![before.tail_of(piece, cut)]
                } else {
                    Seq::<Piece>::empty()
                };
                assert(new_pieces@ =~= left + right);
            }
            offset = 0;
            piece_idx = piece_idx + 1;
        }
        proof {
            assert(reached == before.delete_end(range));
            if piece_idx > loc.idx {
                let last = Location { idx: (piece_idx - 1) as usize, offset: (cut - 1) as usize };
                before.lemma_locate_is(last);
                assert(before.delete_last(range) == last);
            }
            assert(new_pieces@ =~= before.delete_remains(range));
        }
        (piece_idx, new_pieces, has_right)
    }

    /// Puts a delete into the newest undo step: the step then holds what
    /// stood before both.
    fn merge_step(
        &mut self,
        from: usize,
        upto: usize,
        count: usize,
        removed: Vec<Piece>,
        Ghost(before): Ghost<model::PieceTableView>,
    )
        requires
            before.wf(),
            before.undo_steps.len() > 0,
            steps_view(old(self).undo_steps@) == before.undo_steps,
            removed@ == before.pieces.subrange(from as int, upto as int),
            from < upto <= before.pieces.len(),
            from <= before.undo_steps.last().start <= upto,
            before.undo_steps.last().start + 1 >= upto,
            from + count + before.pieces.len() - upto <= usize::MAX,
        ensures
            steps_view(final(self).undo_steps@) == before.undo_steps.drop_last().push(
                model::UndoStepView {
                    start: from,
                    end: (from + count + (if before.undo_steps.last().end > upto {
                        before.undo_steps.last().end as int
                    } else {
                        upto as int
                    }) - upto) as usize,
                    pieces: before.pieces.subrange(
                        from as int,
                        before.undo_steps.last().start as int,
                    ) + before.undo_steps.last().pieces + before.pieces.subrange(
                        before.undo_steps.last().end as int,
                        if before.undo_steps.last().end > upto {
                            before.undo_steps.last().end as int
                        } else {
                            upto as int
                        },
                    ),
                },
            ),
            final(self).original == old(self).original,
            final(self).added == old(self).added,
            final(self).pieces == old(self).pieces,
            final(self).cache_idx == old(self).cache_idx,
    {
        let mut removed = removed;
        let ghost top_view = before.undo_steps.last();
        let ghost steps_before = self.undo_steps@;
        assert(steps_view(steps_before).last() == steps_before.last()@);
        let top = self.undo_steps.pop().unwrap();
        let UndoStep { pieces: mut top_pieces, start: top_start, end: top_end } = top;
        proof {
            assert(top@ == top_view);
            assert(top_start <= top_end <= before.pieces.len());
        }
        let high = if top_end > upto {
            top_end
        } else {
            upto
        };
        let extra: Option<Piece> = if top_end < upto {
            Some(removed[removed.len() - 1])
        } else {
            None
        };
        removed.truncate(top_start - from);
        removed.append(&mut top_pieces);
        if let Some(piece) = extra {
            removed.push(piece);
        }
        proof {
            assert(removed@ =~= before.pieces.subrange(from as int, top_start as int)
                + top_view.pieces + before.pieces.subrange(top_end as int, high as int));
        }
        let ghost popped = self.undo_steps@;
        let step = UndoStep::new(from, from + count + (high - upto), removed);
        self.undo_steps.push(step);
        proof {
            assert(popped =~= steps_before.drop_last());
            assert(steps_view(self.undo_steps@) =~= before.undo_steps.drop_last().push(step@));
        }
    }

    /// Deletes the characters of `range`, or those of them that the
    /// document has. Pieces that lie in the range leave the list; of the
    /// first and the last, what lies outside stays. The delete marks the
    /// piece that ends where it starts. A delete that ends where the marked
    /// piece ends, which is where the delete before it started, goes into
    /// the newest undo step, as each Backspace of a run does; any other gets
    /// a step of its own.
    pub fn delete(&mut self, range: Range)
        requires
            old(self).wf(),
        ensures
            final(self).wf(),
            final(self)@ == old(self)@.delete(range),
            final(self)@.text() == delete_at(old(self)@.text(), range.start, range.length as nat),
    {
        let ghost before = self@;
        let loc = self.location(range.start);
        let (upto, new_pieces, has_right) = self.delete_walk(range, loc);
        proof {
            before.lemma_delete(range);
            before.lemma_delete_pieces(range);
            before.lemma_text_bounds();
        }
        let count = new_pieces.len();
        let mark = if loc.offset > 0 {
            if upto > loc.idx {
                Some(loc.idx)
            } else {
                None
            }
        } else if loc.idx > 0 {
            Some(loc.idx - 1)
        } else {
            None
        };
        let removed = splice(&mut self.pieces, loc.idx, upto, new_pieces);
        assert(loc.idx + count <= self.pieces.len());
        if upto > loc.idx && !has_right && self.cache_idx == Some(upto - 1) {
            proof {
                assert(before.coalesces(range));
            }
            self.merge_step(loc.idx, upto, count, removed, Ghost(before));
            self.cache_idx = mark;
            proof {
                let after = before.delete(range);
                assert(self@.pieces == after.pieces);
                assert(self@.undo_steps == after.undo_steps);
                assert(self@ == after);
            }
        } else {
            proof {
                assert(!before.coalesces(range));
            }
            self.undo_steps.push(UndoStep::new(loc.idx, loc.idx + count, removed));
            self.cache_idx = mark;
            proof {
                let after = before.delete(range);
                assert(self@.pieces == after.pieces);
                assert(self@.undo_steps =~= after.undo_steps);
                assert(self@ == after);
            }
        }
    }

    /// Forgets which piece the delete before left marked, so that the next
    /// delete gets an undo step of its own.
    pub fn reset_cache(&mut self)
        requires
            old(self).wf(),
        ensures
            final(self).wf(),
            final(self)@ == (model::PieceTableView { cache_idx: None, ..old(self)@ }),
    {
        let ghost before = self@;
        self.cache_idx = None;
        proof {
            let after = self@;
            assert(after.pieces == before.pieces);
            assert(after.undo_steps == before.undo_steps);
            before.lemma_same_buffers(after, after.pieces);
            assert forall|i: int| 0 <= i < after.undo_steps.len() implies after.pieces_ok(
                #[trigger] after.undo_steps[i].pieces,
            ) by {
                before.lemma_same_buffers(after, before.undo_steps[i].pieces);
            }
        }
    }
}

} // verus!
