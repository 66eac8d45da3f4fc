//! What typing and deleting do to a table in order: it stays in order, and
//! its text changes as the flat text would.

use super::lemmas::{lemma_total_len_concat, lemma_total_len_one};
use super::model::{history_ok, restore, splice, total_len, PieceTableView, UndoStepView};
use super::{Piece, Source};
use crate::buffer::Position;
use crate::text::flat::{insert_at, lemma_newlines_push, newlines, offset_of};
use vstd::prelude::*;

verus! {

impl PieceTableView {
    /// The table with one more character in its added buffer.
    pub open spec fn with_added(self, c: char) -> PieceTableView {
        PieceTableView { added: self.added.push(c), ..self }
    }

    /// A piece keeps its text when the added buffer grows.
    pub proof fn lemma_grow_keeps(self, c: char, piece: Piece)
        requires
            piece.within(self.buffer(piece.source)),
        ensures
            self.with_added(c).piece_text(piece) == self.piece_text(piece),
            piece.within(self.with_added(c).buffer(piece.source)),
            self.piece_ok(piece) ==> self.with_added(c).piece_ok(piece),
    {
        assert(self.with_added(c).piece_text(piece) =~= self.piece_text(piece));
    }

    /// A list of pieces keeps its text when the added buffer grows.
    pub proof fn lemma_grow_keeps_all(self, c: char, pieces: Seq<Piece>)
        requires
            self.pieces_ok(pieces),
        ensures
            self.with_added(c).pieces_ok(pieces),
            self.with_added(c).text_of(pieces) == self.text_of(pieces),
        decreases pieces.len(),
    {
        let grown = self.with_added(c);
        assert forall|i: int| 0 <= i < pieces.len() implies grown.piece_ok(#[trigger] pieces[i]) by {
            assert(self.piece_ok(pieces[i]));
            self.lemma_grow_keeps(c, pieces[i]);
        }
        if pieces.len() > 0 {
            assert(self.piece_ok(pieces[pieces.len() - 1]));
            self.lemma_grow_keeps(c, pieces.last());
            self.lemma_pieces_ok_subrange(pieces, 0, pieces.len() - 1);
            assert(pieces.drop_last() =~= pieces.subrange(0, pieces.len() - 1));
            self.lemma_grow_keeps_all(c, pieces.drop_last());
        }
    }

    /// The text of a list in which a stretch was replaced.
    pub proof fn lemma_text_of_splice(self, pieces: Seq<Piece>, start: int, end: int, with: Seq<Piece>)
        requires
            0 <= start <= end <= pieces.len(),
        ensures
            self.text_of(splice(pieces, start, end, with)) == self.text_of(pieces.subrange(0, start))
                + self.text_of(with) + self.text_of(pieces.subrange(end, pieces.len() as int)),
            self.text_of(pieces) == self.text_of(pieces.subrange(0, start)) + self.text_of(
                pieces.subrange(start, end),
            ) + self.text_of(pieces.subrange(end, pieces.len() as int)),
            total_len(splice(pieces, start, end, with)) == total_len(pieces.subrange(0, start))
                + total_len(with) + total_len(pieces.subrange(end, pieces.len() as int)),
            total_len(pieces) == total_len(pieces.subrange(0, start)) + total_len(
                pieces.subrange(start, end),
            ) + total_len(pieces.subrange(end, pieces.len() as int)),
    {
        let a = pieces.subrange(0, start);
        let b = pieces.subrange(start, end);
        let z = pieces.subrange(end, pieces.len() as int);
        self.lemma_text_of_concat(a, with);
        self.lemma_text_of_concat(a + with, z);
        self.lemma_text_of_concat(a, b);
        self.lemma_text_of_concat(a + b, z);
        lemma_total_len_concat(a, with);
        lemma_total_len_concat(a + with, z);
        lemma_total_len_concat(a, b);
        lemma_total_len_concat(a + b, z);
        assert(pieces =~= a + b + z);
    }

    /// A piece cut in two stands for the same text, and both parts are in
    /// order if neither is empty.
    pub proof fn lemma_cut(self, piece: Piece, offset: int)
        requires
            self.capacity() <= usize::MAX,
            self.piece_ok(piece),
            0 <= offset <= piece.length,
        ensures
            self.piece_text(self.head_of(piece, offset)) == self.piece_text(piece).subrange(
                0,
                offset,
            ),
            self.piece_text(self.tail_of(piece, offset)) == self.piece_text(piece).subrange(
                offset,
                piece.length as int,
            ),
            self.head_of(piece, offset).length == offset,
            self.tail_of(piece, offset).length == piece.length - offset,
            self.head_of(piece, offset).source == piece.source,
            self.tail_of(piece, offset).source == piece.source,
            self.head_of(piece, offset).start == piece.start,
            self.tail_of(piece, offset).start == piece.start + offset,
            offset > 0 ==> self.piece_ok(self.head_of(piece, offset)),
            offset < piece.length ==> self.piece_ok(self.tail_of(piece, offset)),
            offset == 0 ==> self.tail_of(piece, offset) == piece,
            offset == piece.length ==> self.head_of(piece, offset) == piece,
    {
        let buffer = self.buffer(piece.source);
        crate::text::flat::lemma_newlines_le_len(buffer.subrange(piece.start as int, piece.start + offset));
        crate::text::flat::lemma_newlines_le_len(
            buffer.subrange(piece.start + offset, piece.start + piece.length),
        );
        assert(self.piece_text(self.head_of(piece, offset)) =~= self.piece_text(piece).subrange(
            0,
            offset,
        ));
        assert(self.piece_text(self.tail_of(piece, offset)) =~= self.piece_text(piece).subrange(
            offset,
            piece.length as int,
        ));
        if offset == 0 {
            assert(self.piece_text(piece).subrange(0, piece.length as int) =~= self.piece_text(piece));
        }
        if offset == piece.length {
            assert(self.piece_text(piece).subrange(0, piece.length as int) =~= self.piece_text(piece));
        }
    }
}

/// A log that is in order under one bound is in order under a larger one.
pub proof fn lemma_history_cap(pieces: Seq<Piece>, steps: Seq<UndoStepView>, cap: int, more: int)
    requires
        history_ok(pieces, steps, cap),
        cap <= more,
    ensures
        history_ok(pieces, steps, more),
    decreases steps.len(),
{
    if steps.len() > 0 {
        lemma_history_cap(restore(pieces, steps.last()), steps.drop_last(), cap, more);
    }
}

/// The length of a list in which one piece was replaced.
pub proof fn lemma_total_len_update(pieces: Seq<Piece>, i: int, piece: Piece)
    requires
        0 <= i < pieces.len(),
    ensures
        total_len(pieces.update(i, piece)) == total_len(pieces) - pieces[i].length + piece.length,
{
    let a = pieces.subrange(0, i);
    let z = pieces.subrange(i + 1, pieces.len() as int);
    assert(pieces =~= a + seq![pieces[i]] + z);
    assert(pieces.update(i, piece) =~= a + seq![piece] + z);
    lemma_total_len_concat(a, seq![pieces[i]]);
    lemma_total_len_concat(a + seq![pieces[i]], z);
    lemma_total_len_concat(a, seq![piece]);
    lemma_total_len_concat(a + seq![piece], z);
    lemma_total_len_one(piece);
    lemma_total_len_one(pieces[i]);
}

/// A log stays in order when one piece of the list grows by a character and
/// the bound with it.
pub proof fn lemma_history_grow(
    pieces: Seq<Piece>,
    steps: Seq<UndoStepView>,
    cap: int,
    i: int,
    piece: Piece,
)
    requires
        history_ok(pieces, steps, cap),
        0 <= i < pieces.len(),
        piece.length <= pieces[i].length + 1,
    ensures
        history_ok(pieces.update(i, piece), steps, cap + 1),
    decreases steps.len(),
{
    lemma_total_len_update(pieces, i, piece);
    if steps.len() > 0 {
        let step = steps.last();
        let before = restore(pieces, step);
        let after = restore(pieces.update(i, piece), step);
        if i < step.start {
            assert(after =~= before.update(i, piece));
            lemma_history_grow(before, steps.drop_last(), cap, i, piece);
        } else if i >= step.end {
            let j = i - step.end + step.start + step.pieces.len();
            assert(after =~= before.update(j, piece));
            assert(before[j] == pieces[i]);
            lemma_history_grow(before, steps.drop_last(), cap, j, piece);
        } else {
            assert(after =~= before);
            lemma_history_cap(before, steps.drop_last(), cap, cap + 1);
        }
    }
}

impl PieceTableView {
    /// Two tables over the same buffers read the same text from a list.
    pub proof fn lemma_same_buffers(self, other: PieceTableView, pieces: Seq<Piece>)
        requires
            self.original == other.original,
            self.added == other.added,
        ensures
            self.text_of(pieces) == other.text_of(pieces),
            self.pieces_ok(pieces) == other.pieces_ok(pieces),
        decreases pieces.len(),
    {
        if pieces.len() > 0 {
            self.lemma_same_buffers(other, pieces.drop_last());
        }
        if self.pieces_ok(pieces) {
            assert forall|i: int| 0 <= i < pieces.len() implies other.piece_ok(
                #[trigger] pieces[i],
            ) by {
                assert(self.piece_ok(pieces[i]));
            }
        }
        if other.pieces_ok(pieces) {
            assert forall|i: int| 0 <= i < pieces.len() implies self.piece_ok(
                #[trigger] pieces[i],
            ) by {
                assert(other.piece_ok(pieces[i]));
            }
        }
    }

    /// The piece that a typed character makes is in order once the added
    /// buffer holds the character.
    pub proof fn lemma_typed(self, c: char)
        requires
            self.capacity() < usize::MAX,
        ensures
            self.with_added(c).piece_ok(self.typed(c)),
            self.with_added(c).piece_text(self.typed(c)) == seq![c],
    {
        let grown = self.with_added(c);
        assert(grown.piece_text(self.typed(c)) =~= seq![c]);
        assert(seq![c] =~= Seq::<char>::empty().push(c));
        lemma_newlines_push(Seq::<char>::empty(), c);
    }

    /// The piece before `loc`, made longer by a typed character, is in order
    /// once the added buffer holds the character.
    pub proof fn lemma_extended(self, left: Piece, c: char)
        requires
            self.capacity() < usize::MAX,
            self.piece_ok(left),
            left.source == Source::Added,
            left.start + left.length == self.added.len(),
        ensures
            self.with_added(c).piece_ok(self.extended(left, c)),
            self.with_added(c).piece_text(self.extended(left, c)) == self.piece_text(left).push(c),
            self.extended(left, c).length == left.length + 1,
    {
        let grown = self.with_added(c);
        assert(grown.piece_text(self.extended(left, c)) =~= self.piece_text(left).push(c));
        lemma_newlines_push(self.piece_text(left), c);
        crate::text::flat::lemma_newlines_le_len(self.piece_text(left));
    }

    /// The steps of a log stay in order when the added buffer grows, and
    /// with one more step whose pieces are in order.
    pub proof fn lemma_steps_grow(self, c: char, after: PieceTableView, step: UndoStepView)
        requires
            self.steps_ok(self.undo_steps),
            after.original == self.original,
            after.added == self.added.push(c),
            after.pieces_ok(step.pieces),
        ensures
            after.steps_ok(self.undo_steps),
            after.steps_ok(self.undo_steps.push(step)),
    {
        let grown = self.with_added(c);
        assert forall|i: int| 0 <= i < self.undo_steps.len() implies after.pieces_ok(
            #[trigger] self.undo_steps[i].pieces,
        ) by {
            self.lemma_grow_keeps_all(c, self.undo_steps[i].pieces);
            grown.lemma_same_buffers(after, self.undo_steps[i].pieces);
        }
        assert forall|i: int| 0 <= i < self.undo_steps.push(step).len() implies after.pieces_ok(
            #[trigger] self.undo_steps.push(step)[i].pieces,
        ) by {
            if i < self.undo_steps.len() {
                assert(self.undo_steps.push(step)[i] == self.undo_steps[i]);
            }
        }
    }

    /// A list in which a stretch was replaced by pieces in order is in order.
    pub proof fn lemma_pieces_ok_splice(self, pieces: Seq<Piece>, start: int, end: int, with: Seq<Piece>)
        requires
            0 <= start <= end <= pieces.len(),
            self.pieces_ok(pieces),
            self.pieces_ok(with),
        ensures
            self.pieces_ok(splice(pieces, start, end, with)),
    {
        self.lemma_pieces_ok_subrange(pieces, 0, start);
        self.lemma_pieces_ok_subrange(pieces, end, pieces.len() as int);
        self.lemma_pieces_ok_concat(pieces.subrange(0, start), with);
        self.lemma_pieces_ok_concat(
            pieces.subrange(0, start) + with,
            pieces.subrange(end, pieces.len() as int),
        );
    }

    /// A list of pieces in order has no more pieces than characters.
    pub proof fn lemma_count_le_len(self, pieces: Seq<Piece>)
        requires
            self.pieces_ok(pieces),
        ensures
            pieces.len() <= total_len(pieces),
    {
        assert forall|i: int| 0 <= i < pieces.len() implies pieces[i].length > 0 by {
            assert(self.piece_ok(pieces[i]));
        }
        super::lemmas::lemma_total_len_ge_count(pieces);
    }

    /// Typing behind the piece that ends the added buffer.
    proof fn lemma_insert_extend(self, pos: Position, c: char)
        requires
            self.wf(),
            self.capacity() < usize::MAX,
            self.extends_left(self.location(pos)),
        ensures
            self.insert(pos, c).wf(),
            self.insert(pos, c).text() == insert_at(self.text(), pos, c),
    {
        let loc = self.location(pos);
        let idx = loc.idx as int;
        let offset = offset_of(self.text(), pos);
        let grown = self.with_added(c);
        let after = self.insert(pos, c);
        let text = self.text();
        let left = self.pieces[idx - 1];
        let longer = self.extended(left, c);
        self.lemma_text_bounds();
        self.lemma_location_place(pos);
        assert(self.piece_ok(left));
        self.lemma_extended(left, c);
        self.lemma_grow_keeps_all(c, self.pieces);
        assert(after.pieces =~= splice(self.pieces, idx - 1, idx, seq![longer]));
        assert(grown.pieces_ok(seq![longer]));
        grown.lemma_pieces_ok_splice(self.pieces, idx - 1, idx, seq![longer]);
        grown.lemma_same_buffers(after, after.pieces);
        self.lemma_steps_grow(c, after, UndoStepView { start: 0, end: 0, pieces: Seq::empty() });
        lemma_history_grow(self.pieces, self.undo_steps, self.capacity(), idx - 1, longer);
        assert(after.wf());
        // the text
        self.lemma_text_of_splice(self.pieces, idx - 1, idx, seq![longer]);
        grown.lemma_text_of_splice(self.pieces, idx - 1, idx, seq![longer]);
        self.lemma_pieces_ok_subrange(self.pieces, 0, idx - 1);
        self.lemma_pieces_ok_subrange(self.pieces, idx, self.pieces.len() as int);
        self.lemma_grow_keeps_all(c, self.pieces.subrange(0, idx - 1));
        self.lemma_grow_keeps_all(c, self.pieces.subrange(idx, self.pieces.len() as int));
        self.lemma_text_of_len(self.pieces.subrange(0, idx - 1));
        assert(self.pieces.subrange(idx - 1, idx) =~= seq![left]);
        self.lemma_text_of_one(left);
        grown.lemma_text_of_one(longer);
        self.lemma_piece_in_text(idx - 1);
        assert(self.pieces.take(idx - 1) =~= self.pieces.subrange(0, idx - 1));
        let a = self.text_of(self.pieces.subrange(0, idx - 1));
        let z = self.text_of(self.pieces.subrange(idx, self.pieces.len() as int));
        let m = self.piece_text(left);
        assert(text == a + m + z);
        assert(after.text() == a + m.push(c) + z);
        assert(offset == a.len() + m.len());
        assert(a + m.push(c) + z =~= (a + m + z).insert(offset, c));
    }

    /// Typing at the end of the document.
    proof fn lemma_insert_append(self, pos: Position, c: char)
        requires
            self.wf(),
            self.capacity() < usize::MAX,
            !self.extends_left(self.location(pos)),
            self.location(pos).idx >= self.pieces.len(),
        ensures
            self.insert(pos, c).wf(),
            self.insert(pos, c).text() == insert_at(self.text(), pos, c),
    {
        let offset = offset_of(self.text(), pos);
        let grown = self.with_added(c);
        let after = self.insert(pos, c);
        let text = self.text();
        let typed = self.typed(c);
        let step = after.undo_steps.last();
        self.lemma_text_bounds();
        self.lemma_location_place(pos);
        self.lemma_prefix_all();
        self.lemma_typed(c);
        self.lemma_grow_keeps_all(c, self.pieces);
        assert(after.pieces =~= self.pieces + seq![typed]);
        assert(grown.pieces_ok(seq![typed]));
        grown.lemma_pieces_ok_concat(self.pieces, seq![typed]);
        grown.lemma_same_buffers(after, after.pieces);
        self.lemma_steps_grow(c, after, step);
        assert(after.undo_steps.drop_last() =~= self.undo_steps);
        assert(restore(after.pieces, step) =~= self.pieces);
        lemma_total_len_concat(self.pieces, seq![typed]);
        lemma_total_len_one(typed);
        lemma_history_cap(self.pieces, self.undo_steps, self.capacity(), self.capacity() + 1);
        assert(after.wf());
        grown.lemma_text_of_concat(self.pieces, seq![typed]);
        grown.lemma_text_of_one(typed);
        assert(text + seq![c] =~= text.insert(offset, c));
    }

    /// The text of a list in which a stretch was replaced is the text before
    /// the stretch, the text of what replaced it, and the text behind it.
    pub proof fn lemma_splice_text(self, pieces: Seq<Piece>, start: int, end: int, with: Seq<Piece>)
        requires
            0 <= start <= end <= pieces.len(),
            self.pieces_ok(pieces),
        ensures
            total_len(pieces.subrange(0, start)) + total_len(pieces.subrange(start, end))
                <= self.text_of(pieces).len(),
            self.text_of(splice(pieces, start, end, with)) == self.text_of(pieces).subrange(
                0,
                total_len(pieces.subrange(0, start)) as int,
            ) + self.text_of(with) + self.text_of(pieces).subrange(
                (total_len(pieces.subrange(0, start)) + total_len(pieces.subrange(start, end)))
                    as int,
                self.text_of(pieces).len() as int,
            ),
            self.text_of(pieces.subrange(start, end)) == self.text_of(pieces).subrange(
                total_len(pieces.subrange(0, start)) as int,
                (total_len(pieces.subrange(0, start)) + total_len(pieces.subrange(start, end)))
                    as int,
            ),
    {
        let a = pieces.subrange(0, start);
        let b = pieces.subrange(start, end);
        let z = pieces.subrange(end, pieces.len() as int);
        self.lemma_text_of_splice(pieces, start, end, with);
        self.lemma_pieces_ok_subrange(pieces, 0, start);
        self.lemma_pieces_ok_subrange(pieces, start, end);
        self.lemma_pieces_ok_subrange(pieces, end, pieces.len() as int);
        self.lemma_text_of_len(a);
        self.lemma_text_of_len(b);
        self.lemma_text_of_len(z);
        let text = self.text_of(pieces);
        let ta = self.text_of(a);
        let tb = self.text_of(b);
        let tz = self.text_of(z);
        assert(text == ta + tb + tz);
        assert(ta =~= text.subrange(0, ta.len() as int));
        assert(tb =~= text.subrange(ta.len() as int, (ta.len() + tb.len()) as int));
        assert(tz =~= text.subrange((ta.len() + tb.len()) as int, text.len() as int));
    }

    /// Typing inside a piece, or before one, keeps the table in order.
    proof fn lemma_insert_split_wf(self, pos: Position, c: char)
        requires
            self.wf(),
            self.capacity() < usize::MAX,
            !self.extends_left(self.location(pos)),
            self.location(pos).idx < self.pieces.len(),
        ensures
            self.insert(pos, c).wf(),
    {
        let loc = self.location(pos);
        let idx = loc.idx as int;
        let grown = self.with_added(c);
        let after = self.insert(pos, c);
        let old = self.pieces[idx];
        let typed = self.typed(c);
        let head = self.head_of(old, loc.offset as int);
        let tail = self.tail_of(old, loc.offset as int);
        let new_pieces = if loc.offset == 0 {
            seq![typed, old]
        } else {
            seq![head, typed, tail]
        };
        let step = after.undo_steps.last();
        self.lemma_text_bounds();
        self.lemma_location_place(pos);
        self.lemma_typed(c);
        assert(self.piece_ok(old));
        self.lemma_cut(old, loc.offset as int);
        self.lemma_grow_keeps(c, head);
        self.lemma_grow_keeps(c, tail);
        self.lemma_grow_keeps(c, old);
        self.lemma_grow_keeps_all(c, self.pieces);
        assert(grown.pieces_ok(new_pieces));
        assert(grown.pieces_ok(seq![old]));
        grown.lemma_pieces_ok_splice(self.pieces, idx, idx + 1, new_pieces);
        assert(after.pieces == splice(self.pieces, idx, idx + 1, new_pieces));
        grown.lemma_same_buffers(after, after.pieces);
        grown.lemma_same_buffers(after, seq![old]);
        self.lemma_steps_grow(c, after, step);
        assert(after.undo_steps.drop_last() =~= self.undo_steps);
        self.lemma_text_of_splice(self.pieces, idx, idx + 1, new_pieces);
        assert(self.pieces.subrange(idx, idx + 1) =~= seq![old]);
        lemma_total_len_one(old);
        lemma_total_len_one(typed);
        lemma_total_len_one(head);
        lemma_total_len_one(tail);
        if loc.offset == 0 {
            assert(new_pieces =~= seq![typed] + seq![old]);
            lemma_total_len_concat(seq![typed], seq![old]);
        } else {
            assert(new_pieces =~= seq![head] + seq![typed] + seq![tail]);
            lemma_total_len_concat(seq![head], seq![typed]);
            lemma_total_len_concat(seq![head] + seq![typed], seq![tail]);
        }
        assert(total_len(after.pieces) == total_len(self.pieces) + 1);
        after.lemma_count_le_len(after.pieces);
        assert(restore(after.pieces, step) =~= self.pieces);
        lemma_history_cap(self.pieces, self.undo_steps, self.capacity(), self.capacity() + 1);
    }

    /// What stands in place of a piece that a typed character cuts in two.
    proof fn lemma_insert_split_mid(self, old: Piece, at: int, c: char)
        requires
            self.capacity() < usize::MAX,
            self.piece_ok(old),
            0 <= at < old.length,
        ensures
            self.with_added(c).text_of(
                if at == 0 {
                    seq![self.typed(c), old]
                } else {
                    seq![self.head_of(old, at), self.typed(c), self.tail_of(old, at)]
                },
            ) == self.piece_text(old).subrange(0, at) + seq![c] + self.piece_text(old).subrange(
                at,
                old.length as int,
            ),
    {
        let grown = self.with_added(c);
        let typed = self.typed(c);
        let head = self.head_of(old, at);
        let tail = self.tail_of(old, at);
        let m = self.piece_text(old);
        self.lemma_typed(c);
        self.lemma_cut(old, at);
        self.lemma_grow_keeps(c, head);
        self.lemma_grow_keeps(c, tail);
        self.lemma_grow_keeps(c, old);
        grown.lemma_text_of_one(old);
        grown.lemma_text_of_one(typed);
        if at == 0 {
            assert(seq![typed, old] =~= seq![typed] + seq![old]);
            grown.lemma_text_of_concat(seq![typed], seq![old]);
            assert(seq![c] + m =~= m.subrange(0, at) + seq![c] + m.subrange(at, old.length as int));
        } else {
            assert(seq![head, typed, tail] =~= seq![head] + seq![typed] + seq![tail]);
            grown.lemma_text_of_concat(seq![head], seq![typed]);
            grown.lemma_text_of_concat(seq![head] + seq![typed], seq![tail]);
            grown.lemma_text_of_one(head);
            grown.lemma_text_of_one(tail);
        }
    }

    /// Typing inside a piece, or before one, puts the character into the
    /// text.
    proof fn lemma_insert_split_text(self, pos: Position, c: char)
        requires
            self.wf(),
            self.capacity() < usize::MAX,
            !self.extends_left(self.location(pos)),
            self.location(pos).idx < self.pieces.len(),
        ensures
            self.insert(pos, c).text() == insert_at(self.text(), pos, c),
    {
        let loc = self.location(pos);
        let idx = loc.idx as int;
        let offset = offset_of(self.text(), pos);
        let grown = self.with_added(c);
        let after = self.insert(pos, c);
        let text = self.text();
        let old = self.pieces[idx];
        let new_pieces = if loc.offset == 0 {
            seq![self.typed(c), old]
        } else {
            seq![
                self.head_of(old, loc.offset as int),
                self.typed(c),
                self.tail_of(old, loc.offset as int),
            ]
        };
        let p = self.prefix_len(idx) as int;
        let m = self.piece_text(old);
        let mid = m.subrange(0, loc.offset as int) + seq![c] + m.subrange(
            loc.offset as int,
            old.length as int,
        );
        self.lemma_text_bounds();
        self.lemma_location_place(pos);
        assert(self.piece_ok(old));
        self.lemma_insert_split_mid(old, loc.offset as int, c);
        assert(after.text() == text.subrange(0, p) + mid + text.subrange(
            p + old.length,
            text.len() as int,
        )) by {
            self.lemma_grow_keeps_all(c, self.pieces);
            grown.lemma_splice_text(self.pieces, idx, idx + 1, new_pieces);
            assert(self.pieces.subrange(idx, idx + 1) =~= seq![old]);
            assert(self.pieces.take(idx) =~= self.pieces.subrange(0, idx));
            lemma_total_len_one(old);
            grown.lemma_same_buffers(after, after.pieces);
        }
        assert(text.subrange(p, p + old.length) == m && p + old.length <= text.len()) by {
            self.lemma_piece_in_text(idx);
        }
        lemma_seq_insert_within(text, p, old.length as int, loc.offset as int, c);
    }

    /// Typing keeps the table in order and puts the character into the text
    /// at the place addressed.
    pub proof fn lemma_insert(self, pos: Position, c: char)
        requires
            self.wf(),
            self.capacity() < usize::MAX,
        ensures
            self.insert(pos, c).wf(),
            self.insert(pos, c).text() == insert_at(self.text(), pos, c),
    {
        if self.extends_left(self.location(pos)) {
            self.lemma_insert_extend(pos, c);
        } else if self.location(pos).idx >= self.pieces.len() {
            self.lemma_insert_append(pos, c);
        } else {
            self.lemma_insert_split_wf(pos, c);
            self.lemma_insert_split_text(pos, c);
        }
    }
}

/// A character put into a stretch of a sequence is put into the sequence.
pub proof fn lemma_seq_insert_within(s: Seq<char>, from: int, length: int, at: int, c: char)
    requires
        0 <= from,
        0 <= at <= length,
        from + length <= s.len(),
    ensures
        s.subrange(0, from) + (s.subrange(from, from + length).subrange(0, at) + seq![c] + s.subrange(
            from,
            from + length,
        ).subrange(at, length)) + s.subrange(from + length, s.len() as int) == s.insert(
            from + at,
            c,
        ),
{
    assert(s.subrange(0, from) + (s.subrange(from, from + length).subrange(0, at) + seq![c]
        + s.subrange(from, from + length).subrange(at, length)) + s.subrange(
        from + length,
        s.len() as int,
    ) =~= s.insert(from + at, c));
}

} // verus!
