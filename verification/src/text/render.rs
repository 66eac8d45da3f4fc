//! Lines of the document as text for the terminal.

use vstd::prelude::*;

verus! {

#[verifier::external_type_specification]
#[verifier::external_body]
pub struct ExSpans<'a>(tui::text::Spans<'a>);

#[verifier::external_type_specification]
#[verifier::external_body]
pub struct ExText<'a>(tui::text::Text<'a>);

/// The characters that a line of terminal text holds: those of its spans,
/// in order.
pub uninterp spec fn spans_chars(spans: tui::text::Spans<'static>) -> Seq<char>;

/// The characters that each line of a terminal text holds.
pub uninterp spec fn text_lines(text: tui::text::Text<'static>) -> Seq<Seq<char>>;

/// The characters of each of `lines`.
pub open spec fn lines_view(lines: Seq<String>) -> Seq<Seq<char>> {
    lines.map_values(|line: String| line@)
}

/// The characters of each of `lines`.
pub open spec fn spans_view(lines: Seq<tui::text::Spans<'static>>) -> Seq<Seq<char>> {
    lines.map_values(|spans: tui::text::Spans<'static>| spans_chars(spans))
}

/// `tui::text::Spans::from` on a string: a line of one span without style,
/// which holds the string.
#[verifier::external_body]
pub(crate) fn plain_line(line: String) -> (spans: tui::text::Spans<'static>)
    ensures
        spans_chars(spans) == line@,
{
    tui::text::Spans::from(line)
}

/// `tui::text::Text::from` on a vector of lines: a text that holds the
/// lines as they are, in order.
#[verifier::external_body]
pub(crate) fn text_of(lines: Vec<tui::text::Spans<'static>>) -> (text: tui::text::Text<'static>)
    ensures
        text_lines(text) == spans_view(lines@),
{
    tui::text::Text::from(lines)
}

/// The terminal text with one line of one span for each of `lines`.
pub fn plain_text(lines: &Vec<String>) -> (text: tui::text::Text<'static>)
    ensures
        text_lines(text) == lines_view(lines@),
{
    let mut spans: Vec<tui::text::Spans<'static>> = Vec::new();
    let mut i: usize = 0;
    while i < lines.len()
        invariant
            i <= lines@.len(),
            spans_view(spans@) == lines_view(lines@.take(i as int)),
        decreases lines@.len() - i,
    {
        let ghost made = spans_view(spans@);
        spans.push(plain_line(lines[i].clone()));
        i = i + 1;
        proof {
            assert(spans_view(spans@) =~= made.push(lines@[i - 1]@));
            assert(lines_view(lines@.take(i as int)) =~= lines_view(lines@.take(i - 1)).push(
                lines@[i - 1]@,
            ));
        }
    }
    proof {
        assert(lines@.take(lines@.len() as int) =~= lines@);
    }
    text_of(spans)
}

} // verus!
