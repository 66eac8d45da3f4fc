//! The spans that an operator works on.

use crate::buffer::Position;
use crate::text::flat::line_len;
use crate::text::{Range, TextBuffer};
use vstd::prelude::*;

verus! {

/// A span of text, given by characters or by whole lines.
pub enum TextObject {
    Charwise(CharwiseObject),
    Linewise(LinewiseObject),
}

/// From one position to another, both among it.
pub struct CharwiseObject {
    pub start: Position,
    pub end: Position,
}

/// From one line to another, both among it.
pub struct LinewiseObject {
    pub start: usize,
    pub end: usize,
}

/// The number of characters on the lines `start..=end` of a buffer, the line
/// break of each counted with it.
pub open spec fn lines_len<T: TextBuffer>(text: &T, start: int, end: int) -> nat
    decreases end - start + 1,
{
    if start > end {
        0
    } else {
        lines_len(text, start, end - 1) + line_len(
            text.contents(),
            text.line_of(end as usize) as nat,
        ) + 1
    }
}

/// The lengths of more lines add up to more.
pub proof fn lemma_lines_len_grows<T: TextBuffer>(text: &T, start: int, mid: int, end: int)
    requires
        start <= mid <= end,
    ensures
        lines_len(text, start, mid) <= lines_len(text, start, end),
    decreases end - mid,
{
    if mid < end {
        lemma_lines_len_grows(text, start, mid, end - 1);
    }
}

impl TextObject {
    pub fn charwise(start: Position, end: Position) -> (object: Self)
        ensures
            object == TextObject::Charwise(CharwiseObject { start, end }),
    {
        TextObject::Charwise(CharwiseObject { start, end })
    }

    pub fn linewise(start: usize, end: usize) -> (object: Self)
        ensures
            object == TextObject::Linewise(LinewiseObject { start, end }),
    {
        TextObject::Linewise(LinewiseObject { start, end })
    }

    /// The range of `text` that the object spans. A span by lines starts at
    /// the first of its lines and is as long as its lines with their line
    /// breaks, or as long as a range can be; a span by characters is empty.
    pub fn range<T: TextBuffer>(&self, text: &T) -> (range: Range)
        requires
            text.ready(),
        ensures
            match *self {
                TextObject::Charwise(_) => range.start == (Position { line: 0, col: 0 })
                    && range.length == 0,
                TextObject::Linewise(object) => range.start == (Position {
                    line: object.start,
                    col: 0,
                }) && range.length == if lines_len(text, object.start as int, object.end as int)
                    > usize::MAX {
                    usize::MAX as nat
                } else {
                    lines_len(text, object.start as int, object.end as int)
                },
            },
    {
        match self {
            TextObject::Charwise(_) => Range::new(Position::new(0, 0), 0),
            TextObject::Linewise(object) => {
                let mut length: usize = 0;
                if object.start <= object.end {
                    let mut lineno: usize = object.start;
                    loop
                        invariant_except_break
                            length == lines_len(text, object.start as int, lineno - 1),
                        invariant
                            text.ready(),
                            object.start <= lineno <= object.end,
                        ensures
                            length == if lines_len(text, object.start as int, object.end as int)
                                > usize::MAX {
                                usize::MAX as nat
                            } else {
                                lines_len(text, object.start as int, object.end as int)
                            },
                        decreases object.end - lineno,
                    {
                        let line = text.line_length(lineno);
                        proof {
                            lemma_lines_len_grows(
                                text,
                                object.start as int,
                                lineno as int,
                                object.end as int,
                            );
                        }
                        if line >= usize::MAX - length {
                            length = usize::MAX;
                            break ;
                        }
                        length = length + line + 1;
                        if lineno == object.end {
                            break ;
                        }
                        lineno = lineno + 1;
                    }
                }
                Range::new(Position::new(object.start, 0), length)
            },
        }
    }
}

} // verus!
