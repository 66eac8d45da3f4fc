use vik::buffer::{Buffer, Position};
use vik::text::array::{ForwardIterator, Line};
use vik::text::{ArrayBuffer, PieceTableBuffer, Range, TextBuffer};
use vik::text_object::TextObject;

fn pos(line: usize, col: usize) -> Position {
    Position { line, col }
}

#[test]
fn array_buffer_finds_its_lines() {
    let buffer = ArrayBuffer::new("ab\ncde\n\nf".to_string());
    assert_eq!(buffer.get_line(0), Line { start: 0, end: 2 });
    assert_eq!(buffer.get_line(1), Line { start: 3, end: 6 });
    assert_eq!(buffer.get_line(2), Line { start: 7, end: 7 });
    assert_eq!(buffer.get_line(3), Line { start: 8, end: 9 });
    assert_eq!(buffer.get_line(4), Line { start: 8, end: 9 });
    assert_eq!(buffer.get_line(usize::MAX), Line { start: 8, end: 9 });
    assert_eq!(buffer.pos_idx(pos(1, 2)), 5);
    assert_eq!(buffer.pos_idx(pos(1, 9)), 6);
    assert_eq!(buffer.pos_idx(pos(9, 0)), 8);
    assert_eq!(buffer.line_count(), 3);
    assert_eq!(buffer.line_length(1), 3);
    assert_eq!(buffer.line_length(7), 1);
    assert_eq!(buffer.line(1), "cde");
    assert_eq!(buffer.to_string(), "ab\ncde\n\nf");
}

#[test]
fn array_buffer_is_edited_in_place() {
    let mut buffer = ArrayBuffer::new("ab\ncd".to_string());
    buffer.insert(pos(0, 1), 'x');
    assert_eq!(buffer.to_string(), "axb\ncd");
    buffer.insert(pos(1, 9), '!');
    assert_eq!(buffer.to_string(), "axb\ncd!");
    buffer.delete(Range::from(pos(0, 0)));
    assert_eq!(buffer.to_string(), "xb\ncd!");
    buffer.delete(Range::new(pos(0, 1), 3));
    assert_eq!(buffer.to_string(), "xd!");
    buffer.delete(Range::new(pos(0, 2), 9));
    assert_eq!(buffer.to_string(), "xd");
    buffer.delete(Range::from(pos(0, 2)));
    assert_eq!(buffer.to_string(), "xd");
}

#[test]
fn a_line_beyond_the_text_is_the_last_line_of_an_array_buffer() {
    let table = PieceTableBuffer::new("ab\ncde".to_string());
    let flat = ArrayBuffer::new("ab\ncde".to_string());
    assert_eq!(flat.line_length(5), 3);
    assert_eq!(table.line_length(5), 0);
    assert_eq!(flat.line(5), "cde");
    assert_eq!(table.line(5), "");
    assert_eq!(flat.pos_idx(pos(5, 1)), 4);
}

#[test]
fn array_buffer_hands_out_its_characters() {
    let buffer = ArrayBuffer::new("ab\ncd".to_string());
    let mut it = ForwardIterator::new(&buffer, pos(1, 0));
    assert_eq!(it.next(), Some('c'));
    assert_eq!(it.next(), Some('d'));
    assert_eq!(it.next(), None);
    let mut all = buffer.chars(pos(0, 0));
    let mut text = String::new();
    while let Some(c) = all.next() {
        text.push(c);
    }
    assert_eq!(text, "ab\ncd");
}

#[test]
fn array_buffer_shows_lines_without_their_endings() {
    let buffer = ArrayBuffer::new("foo\nbar\n\r\nbaz\r".to_string());
    assert_eq!(buffer.lines(0, 9), vec!["foo", "bar", "", "baz\r"]);
    assert_eq!(buffer.lines(1, 2), vec!["bar", ""]);
    assert_eq!(buffer.lines(4, 2), Vec::<String>::new());
    assert_eq!(ArrayBuffer::new("a\n".to_string()).lines(0, 5), vec!["a"]);
    assert_eq!(ArrayBuffer::new(String::new()).lines(0, 5), Vec::<String>::new());
    let text = buffer.to_text(2, 5);
    assert_eq!(text.lines.len(), 2);
    assert_eq!(text.lines[1].0[0].content, "baz\r");
}

#[test]
fn both_buffers_agree_on_lines_that_the_text_has() {
    let start = "the quick\nbrown fox\njumps";
    let mut table = PieceTableBuffer::new(start.to_string());
    let mut flat = ArrayBuffer::new(start.to_string());
    for (line, col, c) in [(0, 4, 'a'), (1, 99, 'b'), (2, 0, '\n'), (3, 2, 'c'), (0, 0, 'd')] {
        TextBuffer::insert(&mut table, pos(line, col), c);
        TextBuffer::insert(&mut flat, pos(line, col), c);
        assert_eq!(TextBuffer::to_string(&table), TextBuffer::to_string(&flat));
    }
    for (line, col, length) in [(0, 0, 1), (1, 3, 9), (1, 0, 2), (0, 8, 1)] {
        TextBuffer::delete(&mut table, Range::new(pos(line, col), length));
        TextBuffer::delete(&mut flat, Range::new(pos(line, col), length));
        assert_eq!(TextBuffer::to_string(&table), TextBuffer::to_string(&flat));
        for line in 0..=TextBuffer::line_count(&table) {
            assert_eq!(TextBuffer::line_length(&table, line), TextBuffer::line_length(&flat, line));
            assert_eq!(TextBuffer::line(&table, line), TextBuffer::line(&flat, line));
        }
        assert_eq!(TextBuffer::line_count(&table), TextBuffer::line_count(&flat));
    }
}

fn buffer_of(text: &str) -> Buffer<PieceTableBuffer> {
    Buffer::new(Box::new(PieceTableBuffer::new(text.to_string())))
}

#[test]
fn the_cursor_follows_what_is_typed() {
    let mut buffer = buffer_of("ab\ncd");
    assert_eq!(buffer.cursor, pos(0, 0));
    buffer.move_cursor(pos(0, 9));
    assert_eq!(buffer.cursor, pos(0, 9));
    assert_eq!(buffer.cursor(), pos(0, 2));
    buffer.insert('x');
    assert_eq!(buffer.text_buffer.to_string(), "abx\ncd");
    assert_eq!(buffer.cursor, pos(0, 3));
    buffer.insert('\n');
    assert_eq!(buffer.text_buffer.to_string(), "abx\n\ncd");
    assert_eq!(buffer.cursor, pos(1, 0));
}

#[test]
fn delete_takes_the_character_before_the_cursor() {
    let mut buffer = buffer_of("ab\ncd");
    buffer.delete();
    assert_eq!(buffer.text_buffer.to_string(), "ab\ncd");
    assert_eq!(buffer.cursor, pos(0, 0));
    buffer.move_cursor(pos(1, 1));
    buffer.delete();
    assert_eq!(buffer.text_buffer.to_string(), "ab\nd");
    assert_eq!(buffer.cursor, pos(1, 0));
    buffer.delete();
    assert_eq!(buffer.text_buffer.to_string(), "abd");
    assert_eq!(buffer.cursor, pos(0, 2));
    buffer.move_cursor(pos(0, 50));
    buffer.delete();
    assert_eq!(buffer.text_buffer.to_string(), "ab");
    assert_eq!(buffer.cursor, pos(0, 2));
}

#[test]
fn lines_open_above_and_below() {
    let mut buffer = buffer_of("ab\ncd");
    buffer.move_cursor(pos(1, 1));
    buffer.line_above();
    assert_eq!(buffer.text_buffer.to_string(), "ab\n\ncd");
    assert_eq!(buffer.cursor, pos(1, 0));
    buffer.move_cursor(pos(0, 1));
    buffer.line_below();
    assert_eq!(buffer.text_buffer.to_string(), "ab\n\n\ncd");
    assert_eq!(buffer.cursor, pos(1, 0));
}

#[test]
fn motions_stay_inside_the_document() {
    let mut buffer = buffer_of("ab\ncd");
    assert_eq!(buffer.prev(), pos(0, 0));
    assert_eq!(buffer.prev_line(), pos(0, 0));
    assert_eq!(buffer.next(), pos(0, 1));
    assert_eq!(buffer.next_line(), pos(1, 0));
    assert_eq!(buffer.end_line(), pos(0, 2));
    buffer.move_cursor(pos(1, 2));
    assert_eq!(buffer.next(), pos(1, 2));
    assert_eq!(buffer.next_line(), pos(1, 2));
    assert_eq!(buffer.prev(), pos(1, 1));
    assert_eq!(buffer.prev_line(), pos(0, 2));
    assert_eq!(buffer.start_line(), pos(1, 0));
    buffer.move_cursor(pos(0, 7));
    assert_eq!(buffer.prev(), pos(0, 6));
    assert_eq!(buffer.next(), pos(0, 7));
    assert_eq!(buffer.text_buffer.to_string(), "ab\ncd");
    let single = buffer_of("no break");
    assert_eq!(single.next_line(), pos(0, 0));
}

#[test]
fn a_span_of_lines_is_as_long_as_its_lines_and_breaks() {
    let table = PieceTableBuffer::new("ab\ncde\n\nf".to_string());
    let range = TextObject::linewise(1, 1).range(&table);
    assert_eq!((range.start, range.length), (pos(1, 0), 4));
    let range = TextObject::linewise(0, 2).range(&table);
    assert_eq!((range.start, range.length), (pos(0, 0), 8));
    let range = TextObject::linewise(3, 5).range(&table);
    assert_eq!((range.start, range.length), (pos(3, 0), 4));
    let range = TextObject::linewise(2, 1).range(&table);
    assert_eq!((range.start, range.length), (pos(2, 0), 0));
    let range = TextObject::charwise(pos(0, 1), pos(1, 1)).range(&table);
    assert_eq!((range.start, range.length), (pos(0, 0), 0));
    assert_eq!(Range::from(pos(3, 4)).length, 1);
    assert!(matches!(
        TextObject::linewise(1, 2),
        TextObject::Linewise(object) if object.start == 1 && object.end == 2
    ));
    assert!(matches!(
        TextObject::charwise(pos(0, 1), pos(2, 3)),
        TextObject::Charwise(object) if object.start == pos(0, 1) && object.end == pos(2, 3)
    ));
}
