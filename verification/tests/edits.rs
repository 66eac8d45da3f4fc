use vik::buffer::Position;
use vik::text::piece_table::{Location, Piece, PieceTableBuffer, Source, SourceBuffer};
use vik::text::Range;

fn pos(line: usize, col: usize) -> Position {
    Position { line, col }
}

fn table_from(original: &str, added: &str, pieces: &[(Source, usize, usize)]) -> PieceTableBuffer {
    let original = SourceBuffer::new(Source::Original, original.to_string());
    let added = SourceBuffer::new(Source::Added, added.to_string());
    let pieces = pieces
        .iter()
        .map(|&(source, start, length)| match source {
            Source::Original => Piece::new(&original, start, length),
            Source::Added => Piece::new(&added, start, length),
        })
        .collect();
    PieceTableBuffer::from_parts(original, added, pieces).unwrap()
}

/// The offset in a flat text that a line and column address.
fn flat_offset(text: &[char], pos: Position) -> usize {
    let mut start = 0;
    let mut line = 0;
    while line < pos.line {
        match text[start..].iter().position(|&c| c == '\n') {
            Some(i) => start += i + 1,
            None => return text.len(),
        }
        line += 1;
    }
    let end = text[start..]
        .iter()
        .position(|&c| c == '\n')
        .map_or(text.len(), |i| start + i);
    if pos.col > end - start {
        end
    } else {
        start + pos.col
    }
}

fn flat_insert(text: &mut Vec<char>, pos: Position, c: char) {
    let at = flat_offset(text, pos);
    text.insert(at, c);
}

fn flat_delete(text: &mut Vec<char>, pos: Position, length: usize) {
    let at = flat_offset(text, pos);
    let to = if length > text.len() - at {
        text.len()
    } else {
        at + length
    };
    text.drain(at..to);
}

fn flat_string(text: &[char]) -> String {
    text.iter().collect()
}

#[test]
fn round_trip_keeps_any_text() {
    for text in ["", "a", "one line", "two\nlines", "ends with a break\n", "\n", "\n\n", "a\n\nb"] {
        let table = PieceTableBuffer::new(text.to_string());
        assert_eq!(table.to_string(), text);
    }
}

#[test]
fn empty_document_has_no_piece() {
    let table = PieceTableBuffer::new(String::new());
    assert_eq!(table.pieces().len(), 0);
    assert_eq!(table.line_count(), 0);
    assert_eq!(table.line_length(0), 0);
    assert_eq!(table.location(pos(0, 0)), Location { idx: 0, offset: 0 });
}

#[test]
fn inserts_read_as_on_the_flat_text() {
    let start = "ab\ncd\n\nef";
    let mut table = PieceTableBuffer::new(start.to_string());
    let mut flat: Vec<char> = start.chars().collect();
    let edits = [
        (0, 0, 'x'),
        (0, 1, 'y'),
        (0, 2, 'z'),
        (1, 9, '!'),
        (2, 0, '\n'),
        (3, 0, 'q'),
        (9, 9, 'e'),
        (4, 1, '-'),
        (0, 99, '+'),
        (5, 0, '\n'),
        (7, 3, '#'),
    ];
    for (line, col, c) in edits {
        table.insert(pos(line, col), c);
        flat_insert(&mut flat, pos(line, col), c);
        assert_eq!(table.to_string(), flat_string(&flat));
    }
}

#[test]
fn deletes_read_as_on_the_flat_text() {
    let start = "the quick\nbrown fox\njumps over\nthe lazy dog";
    let mut table = PieceTableBuffer::new(start.to_string());
    let mut flat: Vec<char> = start.chars().collect();
    table.insert(pos(1, 5), '_');
    flat_insert(&mut flat, pos(1, 5), '_');
    let edits = [
        (0, 0, 1),
        (0, 3, 4),
        (1, 4, 3),
        (2, 9, 1),
        (1, 0, 30),
        (0, 2, 0),
        (5, 0, 2),
        (0, 1, 1),
        (0, 0, 1000),
        (0, 0, 1),
    ];
    for (line, col, length) in edits {
        table.delete(Range::new(pos(line, col), length));
        flat_delete(&mut flat, pos(line, col), length);
        assert_eq!(table.to_string(), flat_string(&flat));
    }
    assert_eq!(table.to_string(), "");
}

#[test]
fn undo_takes_back_one_insert() {
    let mut table = PieceTableBuffer::new("the jumps".to_string());
    table.insert(pos(0, 4), 'q');
    assert_eq!(table.to_string(), "the qjumps");
    assert_eq!(table.undo_steps().len(), 1);
    table.undo();
    assert_eq!(table.to_string(), "the jumps");
    assert_eq!(table.pieces().len(), 1);
    assert_eq!(table.undo_steps().len(), 0);
}

#[test]
fn undo_takes_back_an_insert_at_the_end() {
    let mut table = PieceTableBuffer::new("abc".to_string());
    table.insert(pos(0, 3), 'd');
    assert_eq!(table.to_string(), "abcd");
    table.undo();
    assert_eq!(table.to_string(), "abc");

    let mut empty = PieceTableBuffer::new(String::new());
    empty.insert(pos(0, 0), 'x');
    assert_eq!(empty.to_string(), "x");
    empty.undo();
    assert_eq!(empty.to_string(), "");
}

#[test]
fn typing_on_extends_one_piece_and_one_undo_takes_it_all_back() {
    let mut table = PieceTableBuffer::new("the jumps".to_string());
    for (i, c) in "quick ".chars().enumerate() {
        table.insert(pos(0, 4 + i), c);
    }
    assert_eq!(table.to_string(), "the quick jumps");
    assert_eq!(table.pieces().len(), 3);
    assert_eq!(table.undo_steps().len(), 1);
    table.undo();
    assert_eq!(table.to_string(), "the jumps");
}

#[test]
fn undo_takes_back_one_delete() {
    let mut table = PieceTableBuffer::new("the quick\nbrown".to_string());
    table.delete(Range::new(pos(0, 4), 8));
    assert_eq!(table.to_string(), "the own");
    table.undo();
    assert_eq!(table.to_string(), "the quick\nbrown");

    table.delete(Range::from(pos(1, 0)));
    assert_eq!(table.to_string(), "the quick\nrown");
    table.undo();
    assert_eq!(table.to_string(), "the quick\nbrown");
}

#[test]
fn undo_with_an_empty_log_changes_nothing() {
    let mut table = PieceTableBuffer::new("abc".to_string());
    table.undo();
    assert_eq!(table.to_string(), "abc");
    assert_eq!(table.pieces().len(), 1);
}

#[test]
fn backspaces_share_one_undo_step() {
    let mut table = PieceTableBuffer::new("abcdef".to_string());
    table.delete(Range::from(pos(0, 4)));
    assert_eq!(table.undo_steps().len(), 1);
    table.delete(Range::from(pos(0, 3)));
    table.delete(Range::from(pos(0, 2)));
    table.delete(Range::from(pos(0, 1)));
    table.delete(Range::from(pos(0, 0)));
    assert_eq!(table.to_string(), "f");
    assert_eq!(table.undo_steps().len(), 1);
    table.undo();
    assert_eq!(table.to_string(), "abcdef");
    assert_eq!(table.undo_steps().len(), 0);
}

#[test]
fn backspaces_across_pieces_share_one_undo_step() {
    let mut table = table_from(
        "abcd",
        "",
        &[(Source::Original, 0, 2), (Source::Original, 2, 2)],
    );
    table.delete(Range::from(pos(0, 3)));
    table.delete(Range::from(pos(0, 2)));
    table.delete(Range::from(pos(0, 1)));
    assert_eq!(table.to_string(), "a");
    assert_eq!(table.undo_steps().len(), 1);
    table.undo();
    assert_eq!(table.to_string(), "abcd");
    assert_eq!(table.pieces().len(), 2);
}

#[test]
fn a_delete_over_pieces_that_ends_at_the_marked_piece_joins_its_step() {
    let mut table = table_from(
        "abcdef",
        "",
        &[(Source::Original, 0, 2), (Source::Original, 2, 4)],
    );
    table.delete(Range::from(pos(0, 5)));
    assert_eq!(table.to_string(), "abcde");
    assert_eq!(table.cache_idx(), Some(1));
    table.delete(Range::new(pos(0, 1), 4));
    assert_eq!(table.to_string(), "a");
    assert_eq!(table.undo_steps().len(), 1);
    table.undo();
    assert_eq!(table.to_string(), "abcdef");
}

#[test]
fn deletes_at_the_start_of_the_document_mark_no_piece() {
    let mut table = table_from(
        "abc",
        "",
        &[
            (Source::Original, 0, 1),
            (Source::Original, 1, 1),
            (Source::Original, 2, 1),
        ],
    );
    table.delete(Range::from(pos(0, 0)));
    assert_eq!(table.cache_idx(), None);
    table.delete(Range::from(pos(0, 0)));
    table.delete(Range::from(pos(0, 0)));
    assert_eq!(table.to_string(), "");
    assert_eq!(table.undo_steps().len(), 3);
    table.undo();
    assert_eq!(table.to_string(), "c");
    table.undo();
    table.undo();
    assert_eq!(table.to_string(), "abc");
    assert_eq!(table.pieces().len(), 3);
}

#[test]
fn a_backspace_run_that_starts_at_the_start_of_a_piece_shares_one_step() {
    let mut table = table_from(
        "abcd",
        "",
        &[(Source::Original, 0, 2), (Source::Original, 2, 2)],
    );
    table.delete(Range::from(pos(0, 2)));
    assert_eq!(table.to_string(), "abd");
    assert_eq!(table.cache_idx(), Some(0));
    table.delete(Range::from(pos(0, 1)));
    assert_eq!(table.to_string(), "ad");
    assert_eq!(table.undo_steps().len(), 1);
    table.delete(Range::from(pos(0, 0)));
    assert_eq!(table.to_string(), "d");
    assert_eq!(table.undo_steps().len(), 1);
    assert_eq!(table.cache_idx(), None);
    table.undo();
    assert_eq!(table.to_string(), "abcd");
    assert_eq!(table.pieces().len(), 2);
    assert_eq!(table.undo_steps().len(), 0);
}

#[test]
fn a_delete_that_takes_nothing_marks_the_piece_before_its_place() {
    let mut table = table_from(
        "abcd",
        "",
        &[(Source::Original, 0, 2), (Source::Original, 2, 2)],
    );
    table.delete(Range::new(pos(0, 1), 0));
    assert_eq!(table.cache_idx(), None);
    table.delete(Range::new(pos(0, 2), 0));
    assert_eq!(table.cache_idx(), Some(0));
    table.delete(Range::from(pos(0, 4)));
    assert_eq!(table.cache_idx(), Some(1));
    assert_eq!(table.to_string(), "abcd");
    assert_eq!(table.undo_steps().len(), 3);
}

#[test]
fn a_delete_far_from_the_one_before_gets_a_step_of_its_own() {
    let mut table = PieceTableBuffer::new("abcdef".to_string());
    table.delete(Range::from(pos(0, 0)));
    assert_eq!(table.cache_idx(), None);
    table.delete(Range::from(pos(0, 4)));
    assert_eq!(table.to_string(), "bcde");
    assert_eq!(table.undo_steps().len(), 2);
    table.undo();
    assert_eq!(table.to_string(), "bcdef");
    table.undo();
    assert_eq!(table.to_string(), "abcdef");
}

#[test]
fn a_delete_behind_the_one_before_gets_a_step_of_its_own() {
    let mut table = table_from(
        "abcdef",
        "",
        &[(Source::Original, 0, 2), (Source::Original, 2, 4)],
    );
    table.delete(Range::from(pos(0, 2)));
    assert_eq!(table.to_string(), "abdef");
    assert_eq!(table.cache_idx(), Some(0));
    table.delete(Range::new(pos(0, 2), 3));
    assert_eq!(table.to_string(), "ab");
    assert_eq!(table.undo_steps().len(), 2);
    table.undo();
    assert_eq!(table.to_string(), "abdef");
}

#[test]
fn a_delete_elsewhere_gets_a_step_of_its_own() {
    let mut table = PieceTableBuffer::new("abcdef".to_string());
    table.delete(Range::from(pos(0, 5)));
    table.delete(Range::from(pos(0, 1)));
    assert_eq!(table.to_string(), "acde");
    assert_eq!(table.undo_steps().len(), 2);
    table.undo();
    assert_eq!(table.to_string(), "abcde");
    table.undo();
    assert_eq!(table.to_string(), "abcdef");
}

#[test]
fn an_insert_parts_two_deletes() {
    let mut table = PieceTableBuffer::new("abcdef".to_string());
    table.delete(Range::from(pos(0, 5)));
    table.insert(pos(0, 0), 'x');
    assert_eq!(table.cache_idx(), None);
    table.delete(Range::from(pos(0, 5)));
    assert_eq!(table.to_string(), "xabcd");
    assert_eq!(table.undo_steps().len(), 3);
}

#[test]
fn undo_forgets_the_marked_piece() {
    let mut table = PieceTableBuffer::new("abcdef".to_string());
    table.delete(Range::from(pos(0, 5)));
    table.delete(Range::from(pos(0, 1)));
    assert_eq!(table.cache_idx(), Some(0));
    table.undo();
    assert_eq!(table.to_string(), "abcde");
    assert_eq!(table.cache_idx(), None);
    table.delete(Range::from(pos(0, 4)));
    assert_eq!(table.undo_steps().len(), 2);
    table.undo();
    assert_eq!(table.to_string(), "abcde");
    table.undo();
    assert_eq!(table.to_string(), "abcdef");
}

#[test]
fn reset_cache_parts_two_deletes() {
    let mut table = PieceTableBuffer::new("abcdef".to_string());
    table.delete(Range::from(pos(0, 5)));
    table.reset_cache();
    table.delete(Range::from(pos(0, 4)));
    assert_eq!(table.undo_steps().len(), 2);
}

#[test]
fn a_delete_at_the_end_takes_nothing() {
    let mut table = PieceTableBuffer::new("abc".to_string());
    table.delete(Range::from(pos(0, 3)));
    assert_eq!(table.to_string(), "abc");
    table.delete(Range::from(pos(7, 0)));
    assert_eq!(table.to_string(), "abc");
    table.delete(Range::new(pos(0, 1), 0));
    assert_eq!(table.to_string(), "abc");
    table.undo();
    assert_eq!(table.to_string(), "abc");
}

#[test]
fn a_delete_longer_than_the_rest_stops_at_the_end() {
    let mut table = table_from(
        "the quick\nbrown",
        " fox\njumps",
        &[
            (Source::Original, 0, 5),
            (Source::Original, 5, 10),
            (Source::Added, 0, 5),
            (Source::Added, 5, 5),
        ],
    );
    table.delete(Range::new(pos(1, 2), usize::MAX));
    assert_eq!(table.to_string(), "the quick\nbr");
    assert_eq!(table.pieces().len(), 2);
    table.undo();
    assert_eq!(table.to_string(), "the quick\nbrown fox\njumps");
}

#[test]
fn a_column_beyond_the_line_addresses_its_end() {
    let table = table_from(
        "the quick\nbrown",
        "jumped\nover the lazy dog",
        &[
            (Source::Original, 0, 5),
            (Source::Original, 5, 10),
            (Source::Added, 0, 10),
            (Source::Added, 10, 14),
        ],
    );
    for line in 0..5 {
        let length = table.line_length(line);
        let at_end = table.location(pos(line, length));
        assert_eq!(table.location(pos(line, length + 1)), at_end);
        assert_eq!(table.location(pos(line, usize::MAX)), at_end);
    }
}

#[test]
fn a_line_beyond_the_document_starts_at_its_end() {
    let table = PieceTableBuffer::new("a\nb".to_string());
    assert_eq!(table.line_count(), 1);
    assert_eq!(table.line_start(0), Location { idx: 0, offset: 0 });
    assert_eq!(table.line_start(1), Location { idx: 0, offset: 2 });
    assert_eq!(table.line_start(2), Location { idx: 1, offset: 0 });
    assert_eq!(table.line_start(usize::MAX), Location { idx: 1, offset: 0 });
    assert_eq!(table.location(pos(2, 5)), Location { idx: 1, offset: 0 });
}

#[test]
fn a_line_that_starts_behind_a_piece_is_named_by_that_piece() {
    let table = table_from(
        "ab\ncd",
        "",
        &[(Source::Original, 0, 3), (Source::Original, 3, 2)],
    );
    assert_eq!(table.line_start(1), Location { idx: 0, offset: 3 });
    assert_eq!(table.location(pos(1, 0)), Location { idx: 1, offset: 0 });
    assert_eq!(table.line_length(1), 2);
}

#[test]
fn lines_are_read_one_by_one() {
    let table = table_from(
        "the quick\nbrown",
        " fox\njumps\n",
        &[
            (Source::Original, 0, 5),
            (Source::Original, 5, 10),
            (Source::Added, 0, 5),
            (Source::Added, 5, 6),
        ],
    );
    assert_eq!(table.line(0), "the quick");
    assert_eq!(table.line(1), "brown fox");
    assert_eq!(table.line(2), "jumps");
    assert_eq!(table.line(3), "");
    assert_eq!(table.line(4), "");
    assert_eq!(table.line_count(), 3);
    assert_eq!(table.lines(0, 2), vec!["the quick", "brown fox"]);
    assert_eq!(table.lines(1, 10), vec!["brown fox", "jumps", ""]);
    assert_eq!(table.lines(3, 1), vec![""]);
    assert_eq!(table.lines(4, 1), Vec::<String>::new());
    assert_eq!(table.lines(0, 0), Vec::<String>::new());
    assert_eq!(PieceTableBuffer::new(String::new()).lines(0, 3), Vec::<String>::new());
}

#[test]
fn terminal_text_holds_one_span_for_each_line() {
    let mut table = PieceTableBuffer::new("the quick\nbrown".to_string());
    table.insert(pos(1, 5), '!');
    let text = table.to_text(0, 5);
    assert_eq!(text.lines.len(), 2);
    assert_eq!(text.lines[0].0.len(), 1);
    assert_eq!(text.lines[0].0[0].content, "the quick");
    assert_eq!(text.lines[1].0[0].content, "brown!");
    assert_eq!(text.lines[1].0[0].style, tui::style::Style::default());
    assert_eq!(table.to_text(1, 1).lines.len(), 1);
}

#[test]
fn pieces_count_their_line_breaks() {
    let buffer = SourceBuffer::new(Source::Original, "a\nb\nc".to_string());
    let piece = Piece::new(&buffer, 0, 5);
    assert_eq!(piece.newline_count, 2);
    assert_eq!(piece.source, Source::Original);
    assert_eq!(piece.text(&buffer), "a\nb\nc");
    assert_eq!(Piece::new(&buffer, 1, 1).newline_count, 1);
    assert_eq!(Piece::new(&buffer, 2, 0).text(&buffer), "");
    assert_eq!(buffer.len(), 5);
    assert_eq!(buffer.to_string(), "a\nb\nc");
    assert_eq!(buffer.count_newlines(1, 4), 2);
    assert_eq!(buffer.find_newline(2, 5), Some(3));
    assert_eq!(buffer.find_newline(4, 5), None);
    assert_eq!(buffer.behind_newline(0, 5, 2), 4);
}

#[test]
fn split_cuts_before_the_last_character_at_most() {
    let buffer = SourceBuffer::new(Source::Added, "ab\ncd".to_string());
    let piece = Piece::new(&buffer, 0, 5);
    let (left, right) = piece.split(2, &buffer);
    assert_eq!((left.start, left.length, left.newline_count), (0, 2, 0));
    assert_eq!((right.start, right.length, right.newline_count), (2, 3, 1));
    let (left, right) = piece.split(0, &buffer);
    assert_eq!((left.length, right.length), (0, 5));
    let (left, right) = piece.split(5, &buffer);
    assert_eq!((left.length, right.start, right.length), (4, 4, 1));
    let (left, right) = piece.split(usize::MAX, &buffer);
    assert_eq!((left.length, right.length), (4, 1));
    assert_eq!(left.source, Source::Added);
}

#[test]
fn from_parts_takes_only_pieces_in_order() {
    let original = || SourceBuffer::new(Source::Original, "ab\ncd".to_string());
    let added = || SourceBuffer::new(Source::Added, "xy".to_string());
    let piece = |source, start, length, newline_count| Piece {
        source,
        start,
        length,
        newline_count,
    };
    let good = vec![piece(Source::Original, 0, 3, 1), piece(Source::Added, 0, 2, 0)];
    let table = PieceTableBuffer::from_parts(original(), added(), good).unwrap();
    assert_eq!(table.to_string(), "ab\nxy");
    assert_eq!(table.original().to_string(), "ab\ncd");
    assert_eq!(table.added().to_string(), "xy");
    assert_eq!(table.buffer(Source::Added).source, Source::Added);
    assert!(table.can_grow());

    let empty = vec![piece(Source::Original, 0, 0, 0)];
    assert!(PieceTableBuffer::from_parts(original(), added(), empty).is_none());
    let beyond = vec![piece(Source::Added, 1, 2, 0)];
    assert!(PieceTableBuffer::from_parts(original(), added(), beyond).is_none());
    let miscounted = vec![piece(Source::Original, 0, 3, 0)];
    assert!(PieceTableBuffer::from_parts(original(), added(), miscounted).is_none());
    let too_long = vec![
        piece(Source::Original, 0, 5, 1),
        piece(Source::Original, 0, 5, 1),
    ];
    assert!(PieceTableBuffer::from_parts(original(), added(), too_long).is_none());
    assert!(PieceTableBuffer::from_parts(added(), added(), Vec::new()).is_none());
    assert!(PieceTableBuffer::from_parts(original(), original(), Vec::new()).is_none());
    assert!(PieceTableBuffer::from_parts(original(), added(), Vec::new()).is_some());
}

#[test]
fn characters_are_handed_out_from_a_position_on() {
    let mut table = PieceTableBuffer::new("ab\ncd".to_string());
    table.insert(pos(1, 1), 'x');
    let mut it = table.chars(pos(0, 1));
    let mut rest = String::new();
    while let Some(c) = it.next() {
        rest.push(c);
    }
    assert_eq!(rest, "b\ncxd");
    assert_eq!(it.next(), None);
    let mut end = table.chars(pos(5, 0));
    assert_eq!(end.next(), None);
}
