//! The document as one vector of characters. Offsets, columns and lengths
//! count characters, not bytes.

use crate::buffer::Position;
use crate::text::chars::{chars_of, count_newlines, find_newline, string_of};
use crate::text::flat::{
    delete_at, insert_at, lemma_line_end, lemma_line_end_at, lemma_line_start_is,
    lemma_line_start_within, lemma_newlines_one, lemma_newlines_split, lemma_newlines_zero,
    line_end_from, line_end_offset, line_len, line_start_offset, line_text, newlines, offset_of,
    remove_run,
};
use crate::text::render::{lines_view, plain_text, text_lines};
use crate::text::{Range, TextBuffer};
use vstd::prelude::*;

verus! {

/// The offsets at which a line starts and ends, counted in characters.
#[derive(Debug, Clone, Copy, PartialEq, Eq, Structural)]
pub struct Line {
    pub start: usize,
    pub end: usize,
}

/// A document held as one vector of characters.
#[derive(Debug)]
pub struct ArrayBuffer {
    pub text: Vec<char>,
}

impl View for ArrayBuffer {
    type V = Seq<char>;

    open spec fn view(&self) -> Seq<char> {
        self.text@
    }
}

/// The line that a line number addresses in a flat buffer: the line itself,
/// or the last line where the text has no such line.
pub open spec fn last_line_or(s: Seq<char>, line: usize) -> usize {
    if line > newlines(s) {
        newlines(s) as usize
    } else {
        line
    }
}

/// Behind the start of a line that the text has comes its end, and behind
/// that, if the text goes on, the start of the next line.
pub proof fn lemma_next_line(s: Seq<char>, line: nat)
    requires
        line <= newlines(s),
    ensures
        0 <= line_start_offset(s, line) <= line_end_offset(s, line) <= s.len(),
        newlines(s.subrange(0, line_start_offset(s, line))) == line,
        line < newlines(s) ==> line_end_offset(s, line) < s.len() && line_start_offset(
            s,
            line + 1,
        ) == line_end_offset(s, line) + 1,
        line == newlines(s) ==> line_end_offset(s, line) == s.len(),
{
    let start = line_start_offset(s, line);
    assert(s.subrange(0, s.len() as int) =~= s);
    if line == 0 {
        assert(s.subrange(0, 0) =~= Seq::<char>::empty());
    } else {
        lemma_line_start_within(s, 0, s.len() as int, line);
    }
    lemma_line_end(s, start);
    let end = line_end_from(s, start);
    lemma_newlines_split(s, 0, start, s.len() as int);
    if end < s.len() {
        lemma_newlines_one(s, start, end);
        lemma_newlines_split(s, 0, start, end + 1);
        lemma_newlines_split(s, 0, end + 1, s.len() as int);
        lemma_line_start_is(s, 0, end + 1, line + 1);
    } else {
        lemma_newlines_zero(s.subrange(start, s.len() as int));
    }
}

/// How many lines a text has for the terminal: one for each line break, and
/// one more for what follows the last of them, if anything does.
pub open spec fn bare_line_count(s: Seq<char>) -> nat {
    if s.len() == 0 {
        0
    } else if s.last() == '\n' {
        newlines(s)
    } else {
        newlines(s) + 1
    }
}

/// Line `line` of the text without its line break, and without the carriage
/// return before the line break if it has one.
pub open spec fn bare_line(s: Seq<char>, line: nat) -> Seq<char> {
    let text = line_text(s, line);
    if line_end_offset(s, line) < s.len() && text.len() > 0 && text.last() == '\r' {
        text.drop_last()
    } else {
        text
    }
}

/// How many of the `count` lines from line `start` on the text has.
pub open spec fn bare_lines_shown(s: Seq<char>, start: nat, count: nat) -> nat {
    let available = if start > bare_line_count(s) {
        0
    } else {
        (bare_line_count(s) - start) as nat
    };
    if count < available {
        count
    } else {
        available
    }
}

/// The lines of the text for the terminal from line `start` on, `count` of
/// them or as many as there are.
pub open spec fn bare_lines_from(s: Seq<char>, start: nat, count: nat) -> Seq<Seq<char>> {
    Seq::new(bare_lines_shown(s, start, count), |j: int| bare_line(s, (start + j) as nat))
}

impl ArrayBuffer {
    pub fn new(text: String) -> (buffer: Self)
        ensures
            buffer@ == text@,
    {
        ArrayBuffer { text: chars_of(text.as_str()) }
    }

    /// Where line `line` starts and ends; for a line that the text does not
    /// have, where the last line does.
    pub fn get_line(&self, line: usize) -> (found: Line)
        ensures
            found.start == line_start_offset(self@, last_line_or(self@, line) as nat),
            found.end == line_end_offset(self@, last_line_or(self@, line) as nat),
            found.start <= found.end <= self@.len(),
    {
        let length = self.text.len();
        let mut start: usize = 0;
        let mut passed: usize = 0;
        proof {
            crate::text::flat::lemma_newlines_le_len(self@);
        }
        while passed < line
            invariant
                length == self@.len(),
                passed <= line,
                passed <= newlines(self@) <= length,
                start == line_start_offset(self@, passed as nat),
                start <= length,
            decreases line - passed,
        {
            proof {
                lemma_next_line(self@, passed as nat);
                lemma_line_end(self@, start as int);
            }
            match find_newline(&self.text, start, length) {
                Some(at) => {
                    proof {
                        lemma_line_end_at(self@, start as int, at as int);
                    }
                    start = at + 1;
                    passed = passed + 1;
                },
                None => {
                    proof {
                        if line_end_from(self@, start as int) < length {
                            assert(self@[line_end_from(self@, start as int)] == '\n');
                        }
                        assert(passed == newlines(self@));
                    }
                    return Line { start, end: length };
                },
            }
        }
        proof {
            lemma_next_line(self@, passed as nat);
            lemma_line_end(self@, start as int);
        }
        let end = match find_newline(&self.text, start, length) {
            Some(at) => {
                proof {
                    lemma_line_end_at(self@, start as int, at as int);
                }
                at
            },
            None => {
                proof {
                    if line_end_from(self@, start as int) < length {
                        assert(self@[line_end_from(self@, start as int)] == '\n');
                    }
                }
                length
            },
        };
        Line { start, end }
    }

    /// The offset that `pos` addresses: its column is cut down to the length
    /// of its line.
    pub fn pos_idx(&self, pos: Position) -> (idx: usize)
        ensures
            idx == offset_of(self@, Position { line: last_line_or(self@, pos.line), col: pos.col }),
            idx <= self@.len(),
    {
        let line = self.get_line(pos.line);
        if pos.col > line.end - line.start {
            line.end
        } else {
            line.start + pos.col
        }
    }

    pub fn to_string(&self) -> (text: String)
        ensures
            text@ == self@,
    {
        let text = string_of(&self.text, 0, self.text.len());
        assert(self@.subrange(0, self@.len() as int) =~= self@);
        text
    }

    /// Types `c` at `pos`.
    pub fn insert(&mut self, pos: Position, c: char)
        ensures
            final(self)@ == insert_at(
                old(self)@,
                Position { line: last_line_or(old(self)@, pos.line), col: pos.col },
                c,
            ),
    {
        let idx = self.pos_idx(pos);
        self.text.insert(idx, c);
    }

    /// Deletes the characters of `range`, or those of them that the text
    /// has.
    pub fn delete(&mut self, range: Range)
        ensures
            final(self)@ == delete_at(
                old(self)@,
                Position { line: last_line_or(old(self)@, range.start.line), col: range.start.col },
                range.length as nat,
            ),
    {
        let idx = self.pos_idx(range.start);
        let left = self.text.len() - idx;
        let to = if range.length > left {
            self.text.len()
        } else {
            idx + range.length
        };
        let mut tail = self.text.split_off(to);
        self.text.truncate(idx);
        self.text.append(&mut tail);
    }

    /// The characters of line `line`, its line break not among them.
    pub fn line(&self, line: usize) -> (text: String)
        ensures
            text@ == self@.subrange(
                line_start_offset(self@, last_line_or(self@, line) as nat),
                line_end_offset(self@, last_line_or(self@, line) as nat),
            ),
    {
        let found = self.get_line(line);
        string_of(&self.text, found.start, found.end)
    }

    /// The number of characters on line `line`, its line break not counted.
    pub fn line_length(&self, line: usize) -> (length: usize)
        ensures
            length == line_len(self@, last_line_or(self@, line) as nat),
    {
        let found = self.get_line(line);
        found.end - found.start
    }

    /// The lines of the text for the terminal from line `start` on, `count`
    /// of them or as many as there are.
    pub fn lines(&self, start: usize, count: usize) -> (found: Vec<String>)
        ensures
            lines_view(found@) == bare_lines_from(self@, start as nat, count as nat),
    {
        let mut found: Vec<String> = Vec::new();
        let length = self.text.len();
        let breaks = self.line_count();
        proof {
            crate::text::flat::lemma_newlines_le_len(self@);
            if length > 0 {
                crate::text::flat::lemma_newlines_le_len(self@.drop_last());
            }
        }
        let total = if length == 0 {
            0
        } else if self.text[length - 1] == '\n' {
            breaks
        } else {
            breaks + 1
        };
        let ghost shown = bare_lines_shown(self@, start as nat, count as nat);
        let mut line: usize = start;
        while found.len() < count && line < total
            invariant
                length == self@.len(),
                total == bare_line_count(self@),
                total <= newlines(self@) + 1,
                shown == bare_lines_shown(self@, start as nat, count as nat),
                start <= line,
                line <= total || line == start,
                found@.len() == if line <= total {
                    line - start
                } else {
                    0
                },
                found@.len() <= shown,
                forall|j: int|
                    0 <= j < found@.len() ==> (#[trigger] found@[j])@ == bare_line(
                        self@,
                        (start + j) as nat,
                    ),
            decreases total - line,
        {
            let at = self.get_line(line);
            let end = if at.end < length && at.end > at.start && self.text[at.end - 1] == '\r' {
                at.end - 1
            } else {
                at.end
            };
            let text = string_of(&self.text, at.start, end);
            proof {
                let whole = line_text(self@, line as nat);
                assert(whole.len() == at.end - at.start);
                if at.end > at.start {
                    assert(whole.last() == self@[at.end - 1]);
                }
                assert(text@ =~= bare_line(self@, line as nat));
            }
            found.push(text);
            line = line + 1;
        }
        proof {
            if start > total {
                assert(shown == 0);
            } else if found@.len() >= count {
                assert(found@.len() == shown);
            } else {
                assert(line == total);
                assert(shown <= total - start);
            }
            assert(found@.len() == shown);
            assert(lines_view(found@) =~= bare_lines_from(self@, start as nat, count as nat));
        }
        found
    }

    /// The lines of the text from line `start` on, `count` of them or as
    /// many as there are, as text for the terminal: one span for each line.
    pub fn to_text(&self, start: usize, count: usize) -> (text: tui::text::Text<'static>)
        ensures
            text_lines(text) == bare_lines_from(self@, start as nat, count as nat),
    {
        plain_text(&self.lines(start, count))
    }

    /// The number of line breaks in the text.
    pub fn line_count(&self) -> (count: usize)
        ensures
            count == newlines(self@),
    {
        let count = count_newlines(&self.text, 0, self.text.len());
        assert(self@.subrange(0, self@.len() as int) =~= self@);
        count
    }
}

/// The characters of a flat buffer from a position to the end of the text,
/// handed out one by one.
pub struct ForwardIterator<'a> {
    buffer: &'a ArrayBuffer,
    at: usize,
}

impl<'a> View for ForwardIterator<'a> {
    type V = Seq<char>;

    /// The characters that are still to come.
    closed spec fn view(&self) -> Seq<char> {
        self.buffer@.skip(self.at as int)
    }
}

impl<'a> ForwardIterator<'a> {
    /// The iterator stands at a character of the text, or at its end.
    pub closed spec fn wf(&self) -> bool {
        self.at <= self.buffer@.len()
    }

    pub fn new(array_buffer: &'a ArrayBuffer, pos: Position) -> (it: Self)
        ensures
            it.wf(),
            it@ == array_buffer@.skip(
                offset_of(
                    array_buffer@,
                    Position { line: last_line_or(array_buffer@, pos.line), col: pos.col },
                ),
            ),
    {
        ForwardIterator { buffer: array_buffer, at: array_buffer.pos_idx(pos) }
    }

    /// The next character, if one is left.
    pub fn next(&mut self) -> (next: Option<char>)
        requires
            old(self).wf(),
        ensures
            final(self).wf(),
            match next {
                Some(c) => old(self)@.len() > 0 && c == old(self)@[0] && final(self)@ == old(
                    self,
                )@.skip(1),
                None => old(self)@.len() == 0 && final(self)@ == old(self)@,
            },
    {
        if self.at >= self.buffer.text.len() {
            return None;
        }
        let c = self.buffer.text[self.at];
        proof {
            assert(self.buffer@.skip(self.at + 1) =~= self.buffer@.skip(self.at as int).skip(1));
        }
        self.at = self.at + 1;
        Some(c)
    }
}

impl ArrayBuffer {
    /// The characters from `pos` to the end of the text.
    pub fn chars(&self, pos: Position) -> (it: ForwardIterator<'_>)
        ensures
            it.wf(),
            it@ == self@.skip(
                offset_of(self@, Position { line: last_line_or(self@, pos.line), col: pos.col }),
            ),
    {
        ForwardIterator::new(self, pos)
    }
}

impl TextBuffer for ArrayBuffer {
    open spec fn contents(&self) -> Seq<char> {
        self@
    }

    open spec fn ready(&self) -> bool {
        true
    }

    open spec fn has_room(&self) -> bool {
        true
    }

    open spec fn line_of(&self, line: usize) -> usize {
        last_line_or(self@, line)
    }

    open spec fn inserted(&self, pos: Position, c: char, after: &Self) -> bool {
        after@ == insert_at(self@, Position { line: last_line_or(self@, pos.line), col: pos.col }, c)
    }

    open spec fn deleted(&self, range: Range, after: &Self) -> bool {
        after@ == delete_at(
            self@,
            Position { line: last_line_or(self@, range.start.line), col: range.start.col },
            range.length as nat,
        )
    }

    proof fn lemma_ready(&self) {
        assert(self.text.len() == self@.len());
    }

    fn to_string(&self) -> (text: String) {
        ArrayBuffer::to_string(self)
    }

    fn insert(&mut self, pos: Position, c: char) {
        ArrayBuffer::insert(self, pos, c)
    }

    fn delete(&mut self, range: Range) {
        ArrayBuffer::delete(self, range)
    }

    open spec fn shown(&self, start: usize, count: usize) -> Seq<Seq<char>> {
        bare_lines_from(self@, start as nat, count as nat)
    }

    fn to_text(&self, start: usize, count: usize) -> (text: tui::text::Text<'static>) {
        ArrayBuffer::to_text(self, start, count)
    }

    fn line_count(&self) -> (count: usize) {
        ArrayBuffer::line_count(self)
    }

    fn line(&self, line: usize) -> (text: String) {
        ArrayBuffer::line(self, line)
    }

    fn line_length(&self, line: usize) -> (length: usize) {
        ArrayBuffer::line_length(self, line)
    }
}

} // verus!
