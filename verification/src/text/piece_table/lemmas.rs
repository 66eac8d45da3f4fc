//! Facts about piece lists and the text they stand for.

use super::model::{locate_behind_from, locate_from, total_len, PieceTableView};
use super::{Location, Piece};
use crate::buffer::Position;
use crate::text::flat::{lemma_newlines_concat, line_start_offset, newlines, offset_of};
use vstd::prelude::*;

verus! {

/// Lengths add up over a concatenation.
pub proof fn lemma_total_len_concat(a: Seq<Piece>, b: Seq<Piece>)
    ensures
        total_len(a + b) == total_len(a) + total_len(b),
    decreases b.len(),
{
    if b.len() == 0 {
        assert(a + b =~= a);
    } else {
        assert((a + b).drop_last() =~= a + b.drop_last());
        lemma_total_len_concat(a, b.drop_last());
    }
}

/// The length of a list of one piece.
pub proof fn lemma_total_len_one(p: Piece)
    ensures
        total_len(seq![p]) == p.length,
{
    assert(seq![p].drop_last() =~= Seq::<Piece>::empty());
    assert(total_len(Seq::<Piece>::empty()) == 0);
}

/// The lengths of a stretch of the list are those of its two parts.
pub proof fn lemma_total_len_split(pieces: Seq<Piece>, i: int, j: int, k: int)
    requires
        0 <= i <= j <= k <= pieces.len(),
    ensures
        total_len(pieces.subrange(i, k)) == total_len(pieces.subrange(i, j)) + total_len(
            pieces.subrange(j, k),
        ),
{
    assert(pieces.subrange(i, k) =~= pieces.subrange(i, j) + pieces.subrange(j, k));
    lemma_total_len_concat(pieces.subrange(i, j), pieces.subrange(j, k));
}

/// The length of a prefix is that of the prefix before it and of its last
/// piece.
pub proof fn lemma_total_len_prefix(pieces: Seq<Piece>, upto: int)
    requires
        0 < upto <= pieces.len(),
    ensures
        total_len(pieces.take(upto)) == total_len(pieces.take(upto - 1)) + pieces[upto - 1].length,
        total_len(pieces.take(upto)) <= total_len(pieces),
{
    assert(pieces.take(upto).drop_last() =~= pieces.take(upto - 1));
    assert(pieces =~= pieces.take(upto) + pieces.skip(upto));
    lemma_total_len_concat(pieces.take(upto), pieces.skip(upto));
}

/// A list of pieces that are not empty is no longer than the text it
/// stands for.
pub proof fn lemma_total_len_ge_count(pieces: Seq<Piece>)
    requires
        forall|i: int| 0 <= i < pieces.len() ==> pieces[i].length > 0,
    ensures
        total_len(pieces) >= pieces.len(),
    decreases pieces.len(),
{
    if pieces.len() > 0 {
        lemma_total_len_ge_count(pieces.drop_last());
    }
}

impl PieceTableView {
    /// The text of a concatenation is the texts concatenated.
    pub proof fn lemma_text_of_concat(self, a: Seq<Piece>, b: Seq<Piece>)
        ensures
            self.text_of(a + b) == self.text_of(a) + self.text_of(b),
        decreases b.len(),
    {
        if b.len() == 0 {
            assert(a + b =~= a);
            assert(self.text_of(a) + self.text_of(b) =~= self.text_of(a));
        } else {
            assert((a + b).drop_last() =~= a + b.drop_last());
            self.lemma_text_of_concat(a, b.drop_last());
            assert(self.text_of(a + b) =~= self.text_of(a) + self.text_of(b));
        }
    }

    /// The text of a list of one piece.
    pub proof fn lemma_text_of_one(self, p: Piece)
        ensures
            self.text_of(seq![p]) == self.piece_text(p),
    {
        assert(seq![p].drop_last() =~= Seq::<Piece>::empty());
        assert(self.text_of(Seq::<Piece>::empty()) =~= Seq::<char>::empty());
        assert(self.text_of(seq![p]) =~= self.piece_text(p));
    }

    /// The text of pieces that lie inside their buffers is as long as the
    /// pieces say, and holds as many line breaks as they count.
    pub proof fn lemma_text_of_len(self, pieces: Seq<Piece>)
        requires
            self.pieces_ok(pieces),
        ensures
            self.text_of(pieces).len() == total_len(pieces),
        decreases pieces.len(),
    {
        if pieces.len() > 0 {
            assert(self.piece_ok(pieces[pieces.len() - 1]));
            assert forall|i: int| 0 <= i < pieces.drop_last().len() implies self.piece_ok(
                #[trigger] pieces.drop_last()[i],
            ) by {
                assert(self.piece_ok(pieces[i]));
            }
            self.lemma_text_of_len(pieces.drop_last());
        }
    }

    /// Pieces of a list whose pieces are in order are in order.
    pub proof fn lemma_pieces_ok_subrange(self, pieces: Seq<Piece>, i: int, j: int)
        requires
            self.pieces_ok(pieces),
            0 <= i <= j <= pieces.len(),
        ensures
            self.pieces_ok(pieces.subrange(i, j)),
    {
        assert forall|k: int| 0 <= k < pieces.subrange(i, j).len() implies self.piece_ok(
            #[trigger] pieces.subrange(i, j)[k],
        ) by {
            assert(self.piece_ok(pieces[i + k]));
        }
    }

    /// Two lists whose pieces are in order make one.
    pub proof fn lemma_pieces_ok_concat(self, a: Seq<Piece>, b: Seq<Piece>)
        requires
            self.pieces_ok(a),
            self.pieces_ok(b),
        ensures
            self.pieces_ok(a + b),
    {
        assert forall|k: int| 0 <= k < (a + b).len() implies self.piece_ok(#[trigger] (a + b)[k]) by {
            if k < a.len() {
                assert(self.piece_ok(a[k]));
            } else {
                assert(self.piece_ok(b[k - a.len()]));
            }
        }
    }

    /// The document is no longer than the two buffers together, and has no
    /// more pieces than characters.
    pub proof fn lemma_text_bounds(self)
        requires
            self.wf(),
        ensures
            self.text().len() == total_len(self.pieces),
            self.pieces.len() <= self.text().len() <= self.capacity(),
    {
        self.lemma_text_of_len(self.pieces);
        assert forall|i: int| 0 <= i < self.pieces.len() implies self.pieces[i].length > 0 by {
            assert(self.piece_ok(self.pieces[i]));
        }
        lemma_total_len_ge_count(self.pieces);
    }

    /// Piece `idx` stands in the document from `prefix_len(idx)` on.
    pub proof fn lemma_piece_in_text(self, idx: int)
        requires
            self.pieces_ok(self.pieces),
            0 <= idx < self.pieces.len(),
        ensures
            self.prefix_len(idx + 1) == self.prefix_len(idx) + self.pieces[idx].length,
            self.prefix_len(idx + 1) <= self.text().len(),
            self.text_of(self.pieces.take(idx)).len() == self.prefix_len(idx),
            self.text_of(self.pieces.take(idx)) == self.text().subrange(
                0,
                self.prefix_len(idx) as int,
            ),
            self.text_of(self.pieces.take(idx + 1)) == self.text().subrange(
                0,
                self.prefix_len(idx + 1) as int,
            ),
            self.text().subrange(self.prefix_len(idx) as int, self.prefix_len(idx + 1) as int)
                == self.piece_text(self.pieces[idx]),
            forall|j: int|
                0 <= j < self.pieces[idx].length ==> #[trigger] self.text()[self.prefix_len(idx)
                    + j] == self.buffer(self.pieces[idx].source)[self.pieces[idx].start + j],
    {
        let p = self.pieces[idx];
        let before = self.pieces.take(idx);
        let upto = self.pieces.take(idx + 1);
        let after = self.pieces.skip(idx + 1);
        assert(self.piece_ok(p));
        assert(upto =~= before + seq![p]);
        assert(self.pieces =~= upto + after);
        lemma_total_len_concat(before, seq![p]);
        lemma_total_len_one(p);
        self.lemma_text_of_concat(before, seq![p]);
        self.lemma_text_of_one(p);
        self.lemma_text_of_concat(upto, after);
        self.lemma_pieces_ok_subrange(self.pieces, 0, idx);
        self.lemma_pieces_ok_subrange(self.pieces, 0, idx + 1);
        assert(before =~= self.pieces.subrange(0, idx));
        assert(upto =~= self.pieces.subrange(0, idx + 1));
        self.lemma_text_of_len(before);
        self.lemma_text_of_len(upto);
        let t = self.text();
        assert(t == self.text_of(upto) + self.text_of(after));
        assert(self.text_of(upto) =~= t.subrange(0, self.prefix_len(idx + 1) as int));
        assert(self.text_of(before) =~= t.subrange(0, self.prefix_len(idx) as int));
        assert(t.subrange(self.prefix_len(idx) as int, self.prefix_len(idx + 1) as int)
            =~= self.piece_text(p));
        assert forall|j: int| 0 <= j < p.length implies #[trigger] t[self.prefix_len(idx) + j]
            == self.buffer(p.source)[p.start + j] by {
            assert(t[self.prefix_len(idx) + j] == t.subrange(
                self.prefix_len(idx) as int,
                self.prefix_len(idx + 1) as int,
            )[j]);
            assert(self.piece_text(p)[j] == self.buffer(p.source)[p.start + j]);
        }
    }

    /// The pieces before `idx` hold the line breaks that they count.
    pub proof fn lemma_prefix_newlines(self, idx: int)
        requires
            self.pieces_ok(self.pieces),
            0 <= idx < self.pieces.len(),
        ensures
            newlines(self.text().subrange(0, self.prefix_len(idx + 1) as int)) == newlines(
                self.text().subrange(0, self.prefix_len(idx) as int),
            ) + self.pieces[idx].newline_count,
    {
        self.lemma_piece_in_text(idx);
        let p = self.pieces[idx];
        assert(self.piece_ok(p));
        assert(self.pieces.take(idx + 1) =~= self.pieces.take(idx) + seq![p]);
        self.lemma_text_of_concat(self.pieces.take(idx), seq![p]);
        self.lemma_text_of_one(p);
        lemma_newlines_concat(self.text_of(self.pieces.take(idx)), self.piece_text(p));
    }

    /// The whole list is the prefix behind its last piece.
    pub proof fn lemma_prefix_all(self)
        requires
            self.pieces_ok(self.pieces),
        ensures
            self.prefix_len(self.pieces.len() as int) == self.text().len(),
            self.prefix_len(0) == 0,
    {
        assert(self.pieces.take(self.pieces.len() as int) =~= self.pieces);
        assert(self.pieces.take(0) =~= Seq::<Piece>::empty());
        self.lemma_text_of_len(self.pieces);
    }

    /// Prefixes grow with the index.
    pub proof fn lemma_prefix_mono(self, i: int, j: int)
        requires
            0 <= i <= j <= self.pieces.len(),
        ensures
            self.prefix_len(i) <= self.prefix_len(j),
            self.prefix_len(j) == self.prefix_len(i) + total_len(self.pieces.subrange(i, j)),
    {
        assert(self.pieces.take(j) =~= self.pieces.take(i) + self.pieces.subrange(i, j));
        lemma_total_len_concat(self.pieces.take(i), self.pieces.subrange(i, j));
    }

    /// A place inside a piece is the one that its offset in the document
    /// names.
    pub proof fn lemma_locate_is(self, loc: Location)
        requires
            loc.idx < self.pieces.len(),
            loc.offset < self.pieces[loc.idx as int].length,
        ensures
            locate_from(self.pieces, 0, self.offset_at(loc)) == loc,
    {
        assert(self.pieces.take(0) =~= Seq::<Piece>::empty());
        lemma_locate_from_is(self.pieces, 0, loc);
        self.lemma_prefix_mono(0, loc.idx as int);
    }

    /// The end of the document is named by the end of the list.
    pub proof fn lemma_locate_end(self, offset: int)
        requires
            offset >= total_len(self.pieces),
        ensures
            locate_from(self.pieces, 0, offset) == (Location {
                idx: self.pieces.len() as usize,
                offset: 0,
            }),
    {
        assert(self.pieces.subrange(0, self.pieces.len() as int) =~= self.pieces);
        lemma_locate_from_end(self.pieces, 0, offset);
    }

    /// A place behind a character of a piece is the one that its offset in
    /// the document names.
    pub proof fn lemma_locate_behind_is(self, loc: Location)
        requires
            loc.idx < self.pieces.len(),
            0 < loc.offset <= self.pieces[loc.idx as int].length,
        ensures
            locate_behind_from(self.pieces, 0, self.offset_at(loc)) == loc,
    {
        assert(self.pieces.take(0) =~= Seq::<Piece>::empty());
        lemma_locate_behind_from_is(self.pieces, 0, loc);
        self.lemma_prefix_mono(0, loc.idx as int);
    }
}

pub proof fn lemma_locate_from_is(pieces: Seq<Piece>, idx: int, loc: Location)
    requires
        0 <= idx <= loc.idx < pieces.len(),
        loc.offset < pieces[loc.idx as int].length,
    ensures
        locate_from(pieces, idx, total_len(pieces.subrange(idx, loc.idx as int)) + loc.offset)
            == loc,
    decreases loc.idx - idx,
{
    if idx == loc.idx {
        assert(pieces.subrange(idx, idx) =~= Seq::<Piece>::empty());
    } else {
        lemma_total_len_split(pieces, idx, idx + 1, loc.idx as int);
        assert(pieces.subrange(idx, idx + 1) =~= seq![pieces[idx]]);
        lemma_total_len_one(pieces[idx]);
        lemma_locate_from_is(pieces, idx + 1, loc);
    }
}

pub proof fn lemma_locate_from_end(pieces: Seq<Piece>, idx: int, offset: int)
    requires
        0 <= idx <= pieces.len(),
        offset >= total_len(pieces.subrange(idx, pieces.len() as int)),
    ensures
        locate_from(pieces, idx, offset) == (Location { idx: pieces.len() as usize, offset: 0 }),
    decreases pieces.len() - idx,
{
    if idx < pieces.len() {
        lemma_total_len_split(pieces, idx, idx + 1, pieces.len() as int);
        assert(pieces.subrange(idx, idx + 1) =~= seq![pieces[idx]]);
        lemma_total_len_one(pieces[idx]);
        lemma_locate_from_end(pieces, idx + 1, offset - pieces[idx].length);
    }
}

pub proof fn lemma_locate_behind_from_is(pieces: Seq<Piece>, idx: int, loc: Location)
    requires
        0 <= idx <= loc.idx < pieces.len(),
        0 < loc.offset <= pieces[loc.idx as int].length,
    ensures
        locate_behind_from(
            pieces,
            idx,
            total_len(pieces.subrange(idx, loc.idx as int)) + loc.offset,
        ) == loc,
    decreases loc.idx - idx,
{
    if idx == loc.idx {
        assert(pieces.subrange(idx, idx) =~= Seq::<Piece>::empty());
    } else {
        lemma_total_len_split(pieces, idx, idx + 1, loc.idx as int);
        assert(pieces.subrange(idx, idx + 1) =~= seq![pieces[idx]]);
        lemma_total_len_one(pieces[idx]);
        lemma_locate_behind_from_is(pieces, idx + 1, loc);
    }
}

pub proof fn lemma_locate_behind_from_within(pieces: Seq<Piece>, idx: int, offset: int)
    requires
        0 <= idx <= pieces.len() <= usize::MAX,
        0 < offset <= total_len(pieces.subrange(idx, pieces.len() as int)),
    ensures
        idx <= locate_behind_from(pieces, idx, offset).idx < pieces.len(),
        0 < locate_behind_from(pieces, idx, offset).offset <= pieces[locate_behind_from(
            pieces,
            idx,
            offset,
        ).idx as int].length,
        total_len(pieces.subrange(idx, locate_behind_from(pieces, idx, offset).idx as int))
            + locate_behind_from(pieces, idx, offset).offset == offset,
    decreases pieces.len() - idx,
{
    if idx >= pieces.len() {
        assert(pieces.subrange(idx, pieces.len() as int) =~= Seq::<Piece>::empty());
    } else {
        lemma_total_len_split(pieces, idx, idx + 1, pieces.len() as int);
        assert(pieces.subrange(idx, idx + 1) =~= seq![pieces[idx]]);
        lemma_total_len_one(pieces[idx]);
        if offset <= pieces[idx].length {
            assert(pieces.subrange(idx, idx) =~= Seq::<Piece>::empty());
        } else {
            lemma_locate_behind_from_within(pieces, idx + 1, offset - pieces[idx].length);
            let found = locate_behind_from(pieces, idx + 1, offset - pieces[idx].length);
            lemma_total_len_split(pieces, idx, idx + 1, found.idx as int);
        }
    }
}

pub proof fn lemma_locate_from_within(pieces: Seq<Piece>, idx: int, offset: int)
    requires
        0 <= idx <= pieces.len() <= usize::MAX,
        0 <= offset < total_len(pieces.subrange(idx, pieces.len() as int)),
    ensures
        idx <= locate_from(pieces, idx, offset).idx < pieces.len(),
        locate_from(pieces, idx, offset).offset < pieces[locate_from(
            pieces,
            idx,
            offset,
        ).idx as int].length,
        total_len(pieces.subrange(idx, locate_from(pieces, idx, offset).idx as int)) + locate_from(
            pieces,
            idx,
            offset,
        ).offset == offset,
    decreases pieces.len() - idx,
{
    if idx >= pieces.len() {
        assert(pieces.subrange(idx, pieces.len() as int) =~= Seq::<Piece>::empty());
    } else {
        lemma_total_len_split(pieces, idx, idx + 1, pieces.len() as int);
        assert(pieces.subrange(idx, idx + 1) =~= seq![pieces[idx]]);
        lemma_total_len_one(pieces[idx]);
        if offset < pieces[idx].length {
            assert(pieces.subrange(idx, idx) =~= Seq::<Piece>::empty());
        } else {
            lemma_locate_from_within(pieces, idx + 1, offset - pieces[idx].length);
            let found = locate_from(pieces, idx + 1, offset - pieces[idx].length);
            lemma_total_len_split(pieces, idx, idx + 1, found.idx as int);
        }
    }
}

impl PieceTableView {
    /// The place that an offset inside the document names lies inside a
    /// piece, at that offset.
    pub proof fn lemma_locate_within(self, offset: int)
        requires
            self.pieces_ok(self.pieces),
            self.pieces.len() <= usize::MAX,
            0 <= offset < self.text().len(),
        ensures
            locate_from(self.pieces, 0, offset).idx < self.pieces.len(),
            locate_from(self.pieces, 0, offset).offset < self.pieces[locate_from(
                self.pieces,
                0,
                offset,
            ).idx as int].length,
            self.offset_at(locate_from(self.pieces, 0, offset)) == offset,
    {
        self.lemma_text_of_len(self.pieces);
        assert(self.pieces.subrange(0, self.pieces.len() as int) =~= self.pieces);
        lemma_locate_from_within(self.pieces, 0, offset);
        self.lemma_prefix_mono(0, locate_from(self.pieces, 0, offset).idx as int);
        assert(self.pieces.take(0) =~= Seq::<Piece>::empty());
    }

    /// The place that any offset names lies where the offset says, or at the
    /// end of the document if the offset lies behind it.
    pub proof fn lemma_location_place(self, pos: Position)
        requires
            self.pieces_ok(self.pieces),
            self.pieces.len() <= usize::MAX,
        ensures
            self.offset_at(self.location(pos)) == offset_of(self.text(), pos),
            self.location(pos).idx <= self.pieces.len(),
            self.location(pos).idx < self.pieces.len() ==> self.location(pos).offset
                < self.pieces[self.location(pos).idx as int].length,
            self.location(pos).idx == self.pieces.len() ==> self.location(pos).offset == 0,
    {
        let offset = offset_of(self.text(), pos);
        crate::text::flat::lemma_offset_of_bounds(self.text(), pos);
        self.lemma_text_of_len(self.pieces);
        if offset < self.text().len() {
            self.lemma_locate_within(offset);
        } else {
            self.lemma_locate_end(offset);
            self.lemma_prefix_all();
        }
    }

    /// Where a line starts, as an offset in the document.
    pub proof fn lemma_line_start_place(self, line: usize)
        requires
            self.pieces_ok(self.pieces),
            self.pieces.len() <= usize::MAX,
        ensures
            self.offset_at(self.line_start(line)) == line_start_offset(self.text(), line as nat),
            self.line_start(line).idx <= self.pieces.len(),
            self.line_start(line).idx < self.pieces.len() ==> self.line_start(line).offset
                <= self.pieces[self.line_start(line).idx as int].length,
            self.line_start(line).idx == self.pieces.len() ==> self.line_start(line).offset == 0,
    {
        let text = self.text();
        self.lemma_prefix_all();
        self.lemma_text_of_len(self.pieces);
        if line == 0 {
        } else if line > newlines(text) {
            crate::text::flat::lemma_line_start_beyond(text, line as nat);
        } else {
            assert(text.subrange(0, text.len() as int) =~= text);
            crate::text::flat::lemma_line_start_within(text, 0, text.len() as int, line as nat);
            let offset = line_start_offset(text, line as nat);
            assert(self.pieces.subrange(0, self.pieces.len() as int) =~= self.pieces);
            lemma_locate_behind_from_within(self.pieces, 0, offset);
            let found = locate_behind_from(self.pieces, 0, offset);
            self.lemma_prefix_mono(0, found.idx as int);
            assert(self.pieces.take(0) =~= Seq::<Piece>::empty());
        }
    }
}

} // verus!
