//! The document as one sequence of characters: what a line is, where it
//! starts and ends, and what an edit at a line and column does to it.
//! Offsets, columns and lengths count characters of the sequence, not bytes
//! of an encoding.

use crate::buffer::Position;
use crate::text::{Edit, Range};
use vstd::prelude::*;

verus! {

/// How many line breaks `s` holds.
pub open spec fn newlines(s: Seq<char>) -> nat
    decreases s.len(),
{
    if s.len() == 0 {
        0
    } else {
        newlines(s.drop_last()) + if s.last() == '\n' {
            1nat
        } else {
            0nat
        }
    }
}

/// Reading `s` from `from`, the offset just behind the `line`-th line break
/// met; `from` itself for `line == 0`, the end of `s` where fewer breaks follow.
pub open spec fn line_start_from(s: Seq<char>, from: int, line: nat) -> int
    decreases s.len() - from,
{
    if line == 0 {
        from
    } else if from >= s.len() {
        s.len() as int
    } else if s[from] == '\n' {
        line_start_from(s, from + 1, (line - 1) as nat)
    } else {
        line_start_from(s, from + 1, line)
    }
}

/// Where line `line` of `s` starts; the end of `s` if it has no such line.
pub open spec fn line_start_offset(s: Seq<char>, line: nat) -> int {
    line_start_from(s, 0, line)
}

/// The offset of the first line break at or behind `from`, or the end of `s`.
pub open spec fn line_end_from(s: Seq<char>, from: int) -> int
    decreases s.len() - from,
{
    if from >= s.len() {
        s.len() as int
    } else if s[from] == '\n' {
        from
    } else {
        line_end_from(s, from + 1)
    }
}

/// Where line `line` of `s` ends: at its line break, or at the end of `s`.
pub open spec fn line_end_offset(s: Seq<char>, line: nat) -> int {
    line_end_from(s, line_start_offset(s, line))
}

/// The number of characters on line `line`, its line break not counted.
pub open spec fn line_len(s: Seq<char>, line: nat) -> nat {
    (line_end_offset(s, line) - line_start_offset(s, line)) as nat
}

/// The characters of line `line`, its line break not among them.
pub open spec fn line_text(s: Seq<char>, line: nat) -> Seq<char> {
    s.subrange(line_start_offset(s, line), line_end_offset(s, line))
}

/// How many of the `count` lines from line `start` on the text has. A text
/// without characters has no line; any other has one line more than line
/// breaks.
pub open spec fn lines_shown(s: Seq<char>, start: nat, count: nat) -> nat {
    let available = if s.len() == 0 || start > newlines(s) {
        0
    } else {
        (newlines(s) - start + 1) as nat
    };
    if count < available {
        count
    } else {
        available
    }
}

/// The lines of the text from line `start` on, `count` of them or as many
/// as there are.
pub open spec fn lines_from(s: Seq<char>, start: nat, count: nat) -> Seq<Seq<char>> {
    Seq::new(lines_shown(s, start, count), |j: int| line_text(s, (start + j) as nat))
}

/// The offset that a line and column address: the column is cut down to the
/// line's length, and a line that `s` does not have addresses the end of `s`.
pub open spec fn offset_of(s: Seq<char>, pos: Position) -> int {
    let start = line_start_offset(s, pos.line as nat);
    let end = line_end_offset(s, pos.line as nat);
    if start + pos.col > end {
        end
    } else {
        start + pos.col
    }
}

/// `s` with `c` put in at the place that `pos` addresses.
pub open spec fn insert_at(s: Seq<char>, pos: Position, c: char) -> Seq<char> {
    s.insert(offset_of(s, pos), c)
}

/// `s` without the `length` characters from `from` on, or without all that
/// follow `from` where there are fewer.
pub open spec fn remove_run(s: Seq<char>, from: int, length: nat) -> Seq<char> {
    let to = if from + length > s.len() {
        s.len() as int
    } else {
        from + length
    };
    s.subrange(0, from) + s.subrange(to, s.len() as int)
}

/// `s` without the `length` characters from the place that `start`
/// addresses on.
pub open spec fn delete_at(s: Seq<char>, start: Position, length: nat) -> Seq<char> {
    remove_run(s, offset_of(s, start), length)
}

/// What one edit makes of `s`.
pub open spec fn apply(s: Seq<char>, edit: Edit) -> Seq<char> {
    match edit {
        Edit::Insert(pos, c) => insert_at(s, pos, c),
        Edit::Delete(range) => delete_at(s, range.start, range.length as nat),
    }
}

/// What a run of edits, made in order, makes of `s`.
pub open spec fn replay(s: Seq<char>, edits: Seq<Edit>) -> Seq<char>
    decreases edits.len(),
{
    if edits.len() == 0 {
        s
    } else {
        apply(replay(s, edits.drop_last()), edits.last())
    }
}

/// Line breaks add up over a concatenation.
pub proof fn lemma_newlines_concat(a: Seq<char>, b: Seq<char>)
    ensures
        newlines(a + b) == newlines(a) + newlines(b),
    decreases b.len(),
{
    if b.len() == 0 {
        assert(a + b =~= a);
    } else {
        assert((a + b).drop_last() =~= a + b.drop_last());
        assert((a + b).last() == b.last());
        lemma_newlines_concat(a, b.drop_last());
    }
}

/// One more character adds a line break exactly if it is one.
pub proof fn lemma_newlines_push(s: Seq<char>, c: char)
    ensures
        newlines(s.push(c)) == newlines(s) + if c == '\n' {
            1nat
        } else {
            0nat
        },
{
    assert(s.push(c).drop_last() =~= s);
}

/// The line breaks of a stretch are those of its two parts.
pub proof fn lemma_newlines_split(s: Seq<char>, i: int, j: int, k: int)
    requires
        0 <= i <= j <= k <= s.len(),
    ensures
        newlines(s.subrange(i, k)) == newlines(s.subrange(i, j)) + newlines(s.subrange(j, k)),
{
    assert(s.subrange(i, k) =~= s.subrange(i, j) + s.subrange(j, k));
    lemma_newlines_concat(s.subrange(i, j), s.subrange(j, k));
}

/// A sequence has no more line breaks than characters.
pub proof fn lemma_newlines_le_len(s: Seq<char>)
    ensures
        newlines(s) <= s.len(),
    decreases s.len(),
{
    if s.len() > 0 {
        lemma_newlines_le_len(s.drop_last());
    }
}

/// A sequence counts no line break exactly if none of its characters is one.
pub proof fn lemma_newlines_zero(s: Seq<char>)
    ensures
        newlines(s) == 0 <==> forall|i: int| 0 <= i < s.len() ==> s[i] != '\n',
    decreases s.len(),
{
    if s.len() > 0 {
        lemma_newlines_zero(s.drop_last());
        if newlines(s) == 0 {
            assert forall|i: int| 0 <= i < s.len() implies s[i] != '\n' by {
                if i < s.len() - 1 {
                    assert(s.drop_last()[i] == s[i]);
                }
            }
        } else if s.last() != '\n' {
            let i = choose|i: int| 0 <= i < s.drop_last().len() && s.drop_last()[i] == '\n';
            assert(s[i] == '\n');
        }
    }
}

/// A line starts no earlier than where the reading began and no later than
/// the text ends.
pub proof fn lemma_line_start_bounds(s: Seq<char>, from: int, line: nat)
    requires
        0 <= from <= s.len(),
    ensures
        from <= line_start_from(s, from, line) <= s.len(),
    decreases s.len() - from,
{
    if line != 0 && from < s.len() {
        if s[from] == '\n' {
            lemma_line_start_bounds(s, from + 1, (line - 1) as nat);
        } else {
            lemma_line_start_bounds(s, from + 1, line);
        }
    }
}

/// Reading may skip a stretch that holds fewer line breaks than are looked
/// for, and go on behind it for those that are left.
pub proof fn lemma_line_start_skip(s: Seq<char>, from: int, mid: int, line: nat)
    requires
        0 <= from <= mid <= s.len(),
        newlines(s.subrange(from, mid)) < line,
    ensures
        line_start_from(s, from, line) == line_start_from(
            s,
            mid,
            (line - newlines(s.subrange(from, mid))) as nat,
        ),
    decreases mid - from,
{
    if from == mid {
        assert(s.subrange(from, mid) =~= Seq::<char>::empty());
    } else {
        lemma_newlines_split(s, from, from + 1, mid);
        assert(s.subrange(from, from + 1) =~= seq![s[from]]);
        assert(seq![s[from]].drop_last() =~= Seq::<char>::empty());
        assert(newlines(Seq::<char>::empty()) == 0);
        assert(newlines(seq![s[from]]) == if s[from] == '\n' {
            1nat
        } else {
            0nat
        });
        if s[from] == '\n' {
            lemma_line_start_skip(s, from + 1, mid, (line - 1) as nat);
        } else {
            lemma_line_start_skip(s, from + 1, mid, line);
        }
    }
}

/// Where a stretch holds at least as many line breaks as are looked for, the
/// line starts inside it or right behind it, and behind a line break.
pub proof fn lemma_line_start_within(s: Seq<char>, from: int, mid: int, line: nat)
    requires
        0 <= from <= mid <= s.len(),
        0 < line <= newlines(s.subrange(from, mid)),
    ensures
        from < line_start_from(s, from, line) <= mid,
        s[line_start_from(s, from, line) - 1] == '\n',
        newlines(s.subrange(from, line_start_from(s, from, line))) == line,
    decreases mid - from,
{
    if from == mid {
        assert(s.subrange(from, mid) =~= Seq::<char>::empty());
    } else {
        lemma_newlines_split(s, from, from + 1, mid);
        assert(s.subrange(from, from + 1) =~= seq![s[from]]);
        assert(seq![s[from]].drop_last() =~= Seq::<char>::empty());
        assert(newlines(Seq::<char>::empty()) == 0);
        let head: nat = if s[from] == '\n' {
            1
        } else {
            0
        };
        assert(newlines(seq![s[from]]) == head);
        let rest = (line - head) as nat;
        if rest == 0 {
            assert(line_start_from(s, from, line) == from + 1);
            assert(s.subrange(from, from + 1) =~= seq![s[from]]);
        } else {
            lemma_line_start_within(s, from + 1, mid, rest);
            let r = line_start_from(s, from + 1, rest);
            assert(line_start_from(s, from, line) == r);
            lemma_newlines_split(s, from, from + 1, r);
        }
    }
}

/// A line that the text does not have starts at the end of the text.
pub proof fn lemma_line_start_beyond(s: Seq<char>, line: nat)
    requires
        line > newlines(s),
    ensures
        line_start_offset(s, line) == s.len(),
{
    assert(s.subrange(0, s.len() as int) =~= s);
    lemma_line_start_skip(s, 0, s.len() as int, line);
}

/// A line ends at or behind the place where the reading began, at a line
/// break or at the end of the text, and no line break lies in between.
pub proof fn lemma_line_end(s: Seq<char>, from: int)
    requires
        0 <= from <= s.len(),
    ensures
        from <= line_end_from(s, from) <= s.len(),
        line_end_from(s, from) < s.len() ==> s[line_end_from(s, from)] == '\n',
        forall|i: int| from <= i < line_end_from(s, from) ==> s[i] != '\n',
    decreases s.len() - from,
{
    if from < s.len() && s[from] != '\n' {
        lemma_line_end(s, from + 1);
    }
}

/// Reading for the end of a line may skip a stretch without line breaks.
pub proof fn lemma_line_end_skip(s: Seq<char>, from: int, mid: int)
    requires
        0 <= from <= mid <= s.len(),
        forall|i: int| from <= i < mid ==> s[i] != '\n',
    ensures
        line_end_from(s, from) == line_end_from(s, mid),
    decreases mid - from,
{
    if from < mid {
        lemma_line_end_skip(s, from + 1, mid);
    }
}

/// The line ends at the first line break that follows.
pub proof fn lemma_line_end_at(s: Seq<char>, from: int, at: int)
    requires
        0 <= from <= at < s.len(),
        s[at] == '\n',
        forall|i: int| from <= i < at ==> s[i] != '\n',
    ensures
        line_end_from(s, from) == at,
{
    lemma_line_end_skip(s, from, at);
}

/// Where a position on a line that the text has lands. The line starts at
/// 0 or right behind its line break, and ends at the first line break from
/// there on or at the end of the text; the position lands at its column
/// from the start of the line, or at the end of the line if the column lies
/// beyond it; and a character put in there stands between what came before
/// that offset and what came from it on.
pub proof fn lemma_offset_of(s: Seq<char>, pos: Position, c: char)
    requires
        pos.line <= newlines(s),
    ensures
        ({
            let start = line_start_offset(s, pos.line as nat);
            let end = line_end_offset(s, pos.line as nat);
            let at = offset_of(s, pos);
            &&& pos.line == 0 ==> start == 0
            &&& pos.line > 0 ==> 0 < start <= s.len() && s[start - 1] == '\n' && newlines(
                s.subrange(0, start),
            ) == pos.line
            &&& start <= end <= s.len()
            &&& forall|i: int| start <= i < end ==> s[i] != '\n'
            &&& end < s.len() ==> s[end] == '\n'
            &&& at == if start + pos.col > end {
                end
            } else {
                start + pos.col
            }
            &&& insert_at(s, pos, c) == s.subrange(0, at) + seq![c] + s.subrange(at, s.len() as int)
        }),
{
    let start = line_start_offset(s, pos.line as nat);
    if pos.line > 0 {
        assert(s.subrange(0, s.len() as int) =~= s);
        lemma_line_start_within(s, 0, s.len() as int, pos.line as nat);
    }
    lemma_line_end(s, start);
    assert(insert_at(s, pos, c) =~= s.subrange(0, offset_of(s, pos)) + seq![c] + s.subrange(
        offset_of(s, pos),
        s.len() as int,
    ));
}

/// What a line and column address lies within the text.
pub proof fn lemma_offset_of_bounds(s: Seq<char>, pos: Position)
    ensures
        0 <= line_start_offset(s, pos.line as nat) <= offset_of(s, pos) <= line_end_offset(
            s,
            pos.line as nat,
        ) <= s.len(),
{
    lemma_line_start_bounds(s, 0, pos.line as nat);
    lemma_line_end(s, line_start_offset(s, pos.line as nat));
}

/// The place right behind the `line`-th line break of a stretch is where
/// the line starts.
pub proof fn lemma_line_start_is(s: Seq<char>, from: int, at: int, line: nat)
    requires
        0 <= from < at <= s.len(),
        line > 0,
        newlines(s.subrange(from, at)) == line,
        s[at - 1] == '\n',
    ensures
        line_start_from(s, from, line) == at,
{
    lemma_line_start_within(s, from, at, line);
    let found = line_start_from(s, from, line);
    if found < at {
        lemma_newlines_split(s, from, found, at);
        lemma_newlines_split(s, found, at - 1, at);
        assert(s.subrange(at - 1, at) =~= seq![s[at - 1]]);
        assert(seq![s[at - 1]].drop_last() =~= Seq::<char>::empty());
        assert(newlines(Seq::<char>::empty()) == 0);
        assert(newlines(seq![s[at - 1]]) == 1);
    }
}

/// A stretch that ends behind a line break, without one before it, counts
/// one line break.
pub proof fn lemma_newlines_one(s: Seq<char>, from: int, at: int)
    requires
        0 <= from <= at < s.len(),
        s[at] == '\n',
        forall|i: int| from <= i < at ==> s[i] != '\n',
    ensures
        newlines(s.subrange(from, at + 1)) == 1,
        newlines(s.subrange(from, at)) == 0,
{
    lemma_newlines_zero(s.subrange(from, at));
    assert(s.subrange(from, at + 1).drop_last() =~= s.subrange(from, at));
}

} // verus!
