//! From lines and columns to places in the piece list.

use super::model::PieceTableView;
use super::{Location, PieceTableBuffer};
use crate::text::chars::push_chars;
use crate::text::flat::{lines_from, lines_shown};
use crate::text::render::{lines_view, plain_text, text_lines};
use crate::buffer::Position;
use crate::text::flat::{
    lemma_line_end, lemma_line_end_at, lemma_line_end_skip, lemma_line_start_bounds,
    lemma_line_start_is, lemma_line_start_skip, line_end_from, line_start_from, line_start_offset,
    newlines, offset_of,
};
use vstd::prelude::*;

verus! {

impl PieceTableView {
    /// The line whose start is looked for starts in piece `idx`, right
    /// behind the line break before `offset`.
    proof fn lemma_line_start_found(self, idx: usize, offset: usize, remaining: usize, line: usize)
        requires
            self.wf(),
            idx < self.pieces.len(),
            0 < offset <= self.pieces[idx as int].length,
            remaining > 0,
            newlines(self.text().subrange(0, self.prefix_len(idx as int) as int)) + remaining
                == line,
            newlines(self.piece_text(self.pieces[idx as int]).subrange(0, offset as int))
                == remaining,
            self.piece_text(self.pieces[idx as int])[offset - 1] == '\n',
        ensures
            self.line_start(line) == (Location { idx, offset }),
    {
        let text = self.text();
        let piece = self.pieces[idx as int];
        let before = self.prefix_len(idx as int) as int;
        let loc = Location { idx, offset };
        self.lemma_text_bounds();
        self.lemma_piece_in_text(idx as int);
        assert(text.subrange(before, before + offset) =~= self.piece_text(piece).subrange(
            0,
            offset as int,
        ));
        assert(text[before + (offset - 1)] == self.buffer(piece.source)[piece.start + (offset
            - 1)]);
        crate::text::flat::lemma_newlines_split(text, 0, before, before + offset);
        crate::text::flat::lemma_newlines_split(text, 0, before + offset, text.len() as int);
        assert(text.subrange(0, text.len() as int) =~= text);
        lemma_line_start_is(text, 0, before + offset, line as nat);
        self.lemma_locate_behind_is(loc);
    }

    /// The pieces up to `idx` hold the line breaks that they count.
    proof fn lemma_line_start_next(self, idx: usize)
        requires
            self.wf(),
            idx < self.pieces.len(),
        ensures
            self.prefix_len(idx + 1) <= self.text().len(),
            newlines(self.text().subrange(0, self.prefix_len(idx + 1) as int)) == newlines(
                self.text().subrange(0, self.prefix_len(idx as int) as int),
            ) + self.pieces[idx as int].newline_count,
            self.pieces[idx as int].newline_count == newlines(
                self.piece_text(self.pieces[idx as int]),
            ),
            self.pieces[idx as int].within(self.buffer(self.pieces[idx as int].source)),
            self.pieces[idx as int].start + self.pieces[idx as int].length <= usize::MAX,
    {
        assert(self.piece_ok(self.pieces[idx as int]));
        self.lemma_piece_in_text(idx as int);
        self.lemma_prefix_newlines(idx as int);
    }
}

impl PieceTableBuffer {
    /// Where line `line` starts.
    pub fn line_start(&self, line: usize) -> (loc: Location)
        requires
            self.wf(),
        ensures
            loc == self@.line_start(line),
    {
        let ghost text = self@.text();
        let mut lines_remaining: usize = line;
        let mut idx: usize = 0;
        proof {
            self@.lemma_prefix_all();
            self@.lemma_text_bounds();
            assert(text.subrange(0, 0) =~= Seq::<char>::empty());
        }
        while idx < self.pieces.len()
            invariant
                self.wf(),
                text == self@.text(),
                idx <= self@.pieces.len(),
                self@.prefix_len(idx as int) <= text.len(),
                newlines(text.subrange(0, self@.prefix_len(idx as int) as int)) + lines_remaining
                    == line,
                idx > 0 ==> lines_remaining > 0,
            decreases self@.pieces.len() - idx,
        {
            let piece = self.pieces[idx];
            proof {
                self@.lemma_line_start_next(idx);
            }
            if piece.newline_count >= lines_remaining {
                if lines_remaining == 0 {
                    return Location { idx, offset: 0 };
                }
                let buffer = self.buffer(piece.source);
                let at = buffer.behind_newline(
                    piece.start,
                    piece.start + piece.length,
                    lines_remaining,
                );
                let loc = Location { idx, offset: at - piece.start };
                proof {
                    assert(self@.piece_text(piece).subrange(0, loc.offset as int)
                        =~= buffer@.subrange(piece.start as int, at as int));
                    self@.lemma_line_start_found(idx, loc.offset, lines_remaining, line);
                }
                return loc;
            }
            lines_remaining = lines_remaining - piece.newline_count;
            idx = idx + 1;
        }
        proof {
            assert(text.subrange(0, text.len() as int) =~= text);
        }
        Location { idx: self.pieces.len(), offset: 0 }
    }

    /// The place that `pos` addresses: its column, which counts characters,
    /// is cut down to the length of its line, and a line that the document
    /// does not have addresses the end of the document.
    pub fn location(&self, pos: Position) -> (loc: Location)
        requires
            self.wf(),
        ensures
            loc == self@.location(pos),
    {
        let ghost text = self@.text();
        let ghost start = line_start_offset(text, pos.line as nat);
        let ghost end = line_end_from(text, start);
        let from = self.line_start(pos.line);
        let mut idx: usize = from.idx;
        let mut offset: usize = from.offset;
        let mut cols_remaining: usize = pos.col;
        proof {
            self@.lemma_text_bounds();
            self@.lemma_line_start_place(pos.line);
            self@.lemma_prefix_all();
            lemma_line_start_bounds(text, 0, pos.line as nat);
            lemma_line_end(text, start);
        }
        while idx < self.pieces.len()
            invariant
                self.wf(),
                text == self@.text(),
                start == line_start_offset(text, pos.line as nat),
                end == line_end_from(text, start),
                idx <= self@.pieces.len(),
                idx < self@.pieces.len() ==> offset <= self@.pieces[idx as int].length,
                idx == self@.pieces.len() ==> offset == 0,
                0 <= start <= self@.prefix_len(idx as int) + offset <= end <= text.len(),
                self@.prefix_len(idx as int) + offset + cols_remaining == start + pos.col,
                self@.prefix_len(self@.pieces.len() as int) == text.len(),
            decreases self@.pieces.len() - idx,
        {
            let piece = self.pieces[idx];
            let buffer = self.buffer(piece.source);
            let ghost before = self@.prefix_len(idx as int) as int;
            proof {
                assert(self@.piece_ok(self@.pieces[idx as int]));
                self@.lemma_piece_in_text(idx as int);
                lemma_line_end(text, start);
            }
            match buffer.find_newline(piece.start + offset, piece.start + piece.length) {
                Some(at) => {
                    let line_end = at - piece.start;
                    let loc = Location {
                        idx,
                        offset: if cols_remaining > line_end - offset {
                            line_end
                        } else {
                            offset + cols_remaining
                        },
                    };
                    proof {
                        assert(text[before + line_end] == buffer@[piece.start + line_end]);
                        assert forall|i: int| start <= i < before + line_end implies text[i]
                            != '\n' by {
                            if i >= before + offset {
                                assert(text[before + (i - before)] == buffer@[piece.start + (i
                                    - before)]);
                            }
                        }
                        lemma_line_end_at(text, start, before + line_end);
                        self@.lemma_locate_is(loc);
                    }
                    return loc;
                },
                None => {},
            }
            let rest = piece.length - offset;
            proof {
                assert forall|i: int| start <= i < before + piece.length implies text[i]
                    != '\n' by {
                    if i >= before + offset {
                        assert(text[before + (i - before)] == buffer@[piece.start + (i - before)]);
                    }
                }
                if end < before + piece.length {
                    assert(text[end] == '\n');
                }
            }
            if rest > cols_remaining {
                let loc = Location { idx, offset: offset + cols_remaining };
                proof {
                    self@.lemma_locate_is(loc);
                }
                return loc;
            }
            idx = idx + 1;
            offset = 0;
            cols_remaining = cols_remaining - rest;
        }
        proof {
            self@.lemma_locate_end(offset_of(text, pos));
        }
        Location { idx: self.pieces.len(), offset: 0 }
    }

    /// The number of characters, not bytes, on line `line`, its line break
    /// not counted; 0 for a line that the document does not have.
    pub fn line_length(&self, line: usize) -> (length: usize)
        requires
            self.wf(),
        ensures
            length == self@.line_length(line),
    {
        let ghost text = self@.text();
        let ghost start = line_start_offset(text, line as nat);
        let ghost end = line_end_from(text, start);
        let from = self.line_start(line);
        let mut idx: usize = from.idx;
        let mut offset: usize = from.offset;
        let mut length: usize = 0;
        proof {
            self@.lemma_text_bounds();
            self@.lemma_line_start_place(line);
            self@.lemma_prefix_all();
            lemma_line_start_bounds(text, 0, line as nat);
            lemma_line_end(text, start);
        }
        while idx < self.pieces.len()
            invariant
                self.wf(),
                text == self@.text(),
                start == line_start_offset(text, line as nat),
                end == line_end_from(text, start),
                idx <= self@.pieces.len(),
                idx < self@.pieces.len() ==> offset <= self@.pieces[idx as int].length,
                idx == self@.pieces.len() ==> offset == 0,
                0 <= start <= self@.prefix_len(idx as int) + offset <= end <= text.len()
                    <= usize::MAX,
                start + length == self@.prefix_len(idx as int) + offset,
                self@.prefix_len(self@.pieces.len() as int) == text.len(),
            decreases self@.pieces.len() - idx,
        {
            let piece = self.pieces[idx];
            let buffer = self.buffer(piece.source);
            let ghost before = self@.prefix_len(idx as int) as int;
            proof {
                assert(self@.piece_ok(self@.pieces[idx as int]));
                self@.lemma_piece_in_text(idx as int);
                lemma_line_end(text, start);
            }
            match buffer.find_newline(piece.start + offset, piece.start + piece.length) {
                Some(at) => {
                    let line_end = at - piece.start;
                    proof {
                        assert(text[before + line_end] == buffer@[piece.start + line_end]);
                        assert forall|i: int| start <= i < before + line_end implies text[i]
                            != '\n' by {
                            if i >= before + offset {
                                assert(text[before + (i - before)] == buffer@[piece.start + (i
                                    - before)]);
                            }
                        }
                        lemma_line_end_at(text, start, before + line_end);
                    }
                    return length + (line_end - offset);
                },
                None => {},
            }
            proof {
                assert forall|i: int| start <= i < before + piece.length implies text[i]
                    != '\n' by {
                    if i >= before + offset {
                        assert(text[before + (i - before)] == buffer@[piece.start + (i - before)]);
                    }
                }
                if end < before + piece.length {
                    assert(text[end] == '\n');
                }
            }
            length = length + (piece.length - offset);
            idx = idx + 1;
            offset = 0;
        }
        length
    }

    /// The characters of line `line`, its line break not among them; none
    /// for a line that the document does not have.
    pub fn line(&self, line: usize) -> (found: String)
        requires
            self.wf(),
        ensures
            found@ == self@.text().subrange(
                line_start_offset(self@.text(), line as nat),
                crate::text::flat::line_end_offset(self@.text(), line as nat),
            ),
    {
        let ghost text = self@.text();
        let ghost start = line_start_offset(text, line as nat);
        let ghost end = line_end_from(text, start);
        let from = self.line_start(line);
        let mut idx: usize = from.idx;
        let mut offset: usize = from.offset;
        let mut found = String::new();
        proof {
            self@.lemma_text_bounds();
            self@.lemma_line_start_place(line);
            self@.lemma_prefix_all();
            lemma_line_start_bounds(text, 0, line as nat);
            lemma_line_end(text, start);
            assert(found@ =~= text.subrange(start, start));
        }
        while idx < self.pieces.len()
            invariant
                self.wf(),
                text == self@.text(),
                start == line_start_offset(text, line as nat),
                end == line_end_from(text, start),
                idx <= self@.pieces.len(),
                idx < self@.pieces.len() ==> offset <= self@.pieces[idx as int].length,
                idx == self@.pieces.len() ==> offset == 0,
                0 <= start <= self@.prefix_len(idx as int) + offset <= end <= text.len(),
                found@ == text.subrange(start, self@.prefix_len(idx as int) + offset),
                self@.prefix_len(self@.pieces.len() as int) == text.len(),
            decreases self@.pieces.len() - idx,
        {
            let piece = self.pieces[idx];
            let buffer = self.buffer(piece.source);
            let ghost before = self@.prefix_len(idx as int) as int;
            proof {
                assert(self@.piece_ok(self@.pieces[idx as int]));
                self@.lemma_piece_in_text(idx as int);
                lemma_line_end(text, start);
            }
            match buffer.find_newline(piece.start + offset, piece.start + piece.length) {
                Some(at) => {
                    let line_end = at - piece.start;
                    proof {
                        assert(text[before + line_end] == buffer@[piece.start + line_end]);
                        assert forall|i: int| start <= i < before + line_end implies text[i]
                            != '\n' by {
                            if i >= before + offset {
                                assert(text[before + (i - before)] == buffer@[piece.start + (i
                                    - before)]);
                            }
                        }
                        lemma_line_end_at(text, start, before + line_end);
                    }
                    push_chars(&mut found, &buffer.chars, piece.start + offset, at);
                    proof {
                        assert(buffer@.subrange(piece.start + offset, at as int)
                            =~= text.subrange(before + offset, before + line_end)) by {
                            assert forall|j: int| 0 <= j < line_end - offset implies #[trigger] buffer@.subrange(
                                piece.start + offset,
                                at as int,
                            )[j] == text.subrange(before + offset, before + line_end)[j] by {
                                assert(text[before + (offset + j)] == buffer@[piece.start + (
                                    offset + j)]);
                            }
                        }
                        assert(found@ =~= text.subrange(start, end));
                    }
                    return found;
                },
                None => {},
            }
            proof {
                assert forall|i: int| start <= i < before + piece.length implies text[i]
                    != '\n' by {
                    if i >= before + offset {
                        assert(text[before + (i - before)] == buffer@[piece.start + (i - before)]);
                    }
                }
                if end < before + piece.length {
                    assert(text[end] == '\n');
                }
            }
            push_chars(&mut found, &buffer.chars, piece.start + offset, piece.start + piece.length);
            proof {
                assert(buffer@.subrange(piece.start + offset, piece.start + piece.length)
                    =~= text.subrange(before + offset, before + piece.length)) by {
                    assert forall|j: int| 0 <= j < piece.length - offset implies #[trigger] buffer@.subrange(
                        piece.start + offset,
                        piece.start + piece.length,
                    )[j] == text.subrange(before + offset, before + piece.length)[j] by {
                        assert(text[before + (offset + j)] == buffer@[piece.start + (offset
                            + j)]);
                    }
                }
                assert(found@ =~= text.subrange(start, before + piece.length));
            }
            idx = idx + 1;
            offset = 0;
        }
        found
    }

    /// The lines of the document from line `start` on, `count` of them or
    /// as many as there are, each without its line break.
    pub fn lines(&self, start: usize, count: usize) -> (found: Vec<String>)
        requires
            self.wf(),
        ensures
            lines_view(found@) == lines_from(self@.text(), start as nat, count as nat),
    {
        let mut found: Vec<String> = Vec::new();
        let last = self.line_count();
        proof {
            self@.lemma_text_bounds();
        }
        if self.pieces.len() == 0 || start > last {
            proof {
                assert(lines_view(found@) =~= lines_from(self@.text(), start as nat, count as nat));
            }
            return found;
        }
        let ghost shown = lines_shown(self@.text(), start as nat, count as nat);
        let mut line: usize = start;
        while found.len() < count
            invariant_except_break
                found@.len() == line - start,
            invariant
                self.wf(),
                last == newlines(self@.text()),
                self@.text().len() > 0,
                shown == lines_shown(self@.text(), start as nat, count as nat),
                start <= line <= last,
                found@.len() <= shown,
                forall|j: int|
                    0 <= j < found@.len() ==> (#[trigger] found@[j])@ == crate::text::flat::line_text(
                        self@.text(),
                        (start + j) as nat,
                    ),
            ensures
                found@.len() == shown,
            decreases last - line,
        {
            let text = self.line(line);
            found.push(text);
            if line == last {
                break ;
            }
            line = line + 1;
        }
        proof {
            assert(found@.len() == shown);
            assert(lines_view(found@) =~= lines_from(self@.text(), start as nat, count as nat));
        }
        found
    }

    /// The lines of the document from line `start` on, `count` of them or
    /// as many as there are, as text for the terminal: one span for each
    /// line.
    pub fn to_text(&self, start: usize, count: usize) -> (text: tui::text::Text<'static>)
        requires
            self.wf(),
        ensures
            text_lines(text) == lines_from(self@.text(), start as nat, count as nat),
    {
        plain_text(&self.lines(start, count))
    }
}

} // verus!
