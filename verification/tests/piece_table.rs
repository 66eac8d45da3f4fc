use vik::buffer::Position;
use vik::text::piece_table::iterator::ForwardIterator;
use vik::text::piece_table::{Location, Piece, PieceTableBuffer, Source, SourceBuffer};
use vik::text::Range;

fn pos(line: usize, col: usize) -> Position {
    Position { line, col }
}

fn insert_seq(mut line: usize, mut col: usize, text: &str, table: &mut PieceTableBuffer) {
    for c in text.chars() {
        table.insert(pos(line, col), c);
        if c == '\n' {
            line += 1;
            col = 0;
        } else {
            col += 1;
        }
    }
}

fn table_of(original: &str, added: &str, pieces: &[(Source, usize, usize)]) -> PieceTableBuffer {
    let original = SourceBuffer::new(Source::Original, original.to_string());
    let added = SourceBuffer::new(Source::Added, added.to_string());
    let pieces = pieces
        .iter()
        .map(|&(source, start, length)| match source {
            Source::Original => Piece::new(&original, start, length),
            Source::Added => Piece::new(&added, start, length),
        })
        .collect();
    PieceTableBuffer::from_parts(original, added, pieces).unwrap()
}

#[test]
fn piece_table_test_test_init() {
    let text = "foo bar\nbaz".to_string();
    let table = PieceTableBuffer::new(text.clone());
    assert_eq!(table.to_string(), text)
}

#[test]
fn piece_table_test_test_insert() {
    let mut table = PieceTableBuffer::new("the jumps".to_string());

    insert_seq(0, 4, "quick fox ", &mut table);
    assert_eq!(table.to_string(), "the quick fox jumps".to_string());
    assert_eq!(table.pieces().len(), 3);

    insert_seq(0, 9, "\nbrown", &mut table);
    assert_eq!(table.to_string(), "the quick\nbrown fox jumps".to_string());
    assert_eq!(table.pieces().len(), 5);

    insert_seq(1, 15, "\nover dog", &mut table);
    assert_eq!(
        table.to_string(),
        "the quick\nbrown fox jumps\nover dog".to_string()
    );
    assert_eq!(table.pieces().len(), 6);

    insert_seq(2, 5, "the lazy ", &mut table);
    assert_eq!(
        table.to_string(),
        "the quick\nbrown fox jumps\nover the lazy dog".to_string()
    );
    assert_eq!(table.pieces().len(), 8);
}

#[test]
fn piece_table_test_test_delete() {
    let mut table = table_of(
        "the quick\nbrown",
        " fox\njumps",
        &[
            (Source::Original, 0, 5),
            (Source::Original, 5, 10),
            (Source::Added, 0, 5),
            (Source::Added, 5, 5),
        ],
    );

    // From front
    table.delete(Range::from(pos(0, 0)));
    table.delete(Range::from(pos(0, 0)));
    table.delete(Range::from(pos(0, 0)));
    table.delete(Range::from(pos(0, 0)));
    table.delete(Range::from(pos(0, 0)));
    assert_eq!(table.to_string(), "uick\nbrown fox\njumps".to_string());
    assert_eq!(table.pieces().len(), 3);

    // From the end
    table.delete(Range::from(pos(2, 4)));
    table.delete(Range::from(pos(2, 3)));
    table.delete(Range::from(pos(2, 2)));
    table.delete(Range::from(pos(2, 1)));
    table.delete(Range::from(pos(2, 0)));
    table.delete(Range::from(pos(1, 9)));
    assert_eq!(table.to_string(), "uick\nbrown fox".to_string());
    assert_eq!(table.pieces().len(), 2);

    // From the middle
    table.delete(Range::from(pos(1, 7)));
    table.delete(Range::from(pos(1, 6)));
    assert_eq!(table.to_string(), "uick\nbrown x".to_string());
    assert_eq!(table.pieces().len(), 3);

    // Range
    table.delete(Range::new(pos(0, 2), 5));
    assert_eq!(table.to_string(), "uiown x".to_string());
    assert_eq!(table.pieces().len(), 4);
}

#[test]
fn piece_table_test_test_line_length() {
    let table = table_of(
        "the quick\nbrown",
        "jumped\nover the lazy dog",
        &[
            (Source::Original, 0, 5),
            (Source::Original, 5, 10),
            (Source::Added, 0, 10),
            (Source::Added, 10, 14),
        ],
    );

    assert_eq!(table.line_length(0), 9);
    assert_eq!(table.line_length(1), 11);
    assert_eq!(table.line_length(2), 17);
    assert_eq!(table.line_length(3), 0);
}

#[test]
fn test_forward_iterator() {
    let table = table_of(
        "the quick\nbrown",
        " fox\njumps",
        &[
            (Source::Original, 0, 5),
            (Source::Original, 5, 10),
            (Source::Added, 0, 5),
            (Source::Added, 5, 5),
        ],
    );

    let mut it = ForwardIterator::new(&table, Position::new(1, 1));
    let mut result = String::new();
    while let Some(c) = it.next() {
        result.push(c);
    }
    assert_eq!(result, "rown fox\njumps".to_string());
}

#[test]
fn test_cursor() {
    let table = table_of(
        "the quick\nbrown",
        "jumped\nover the lazy dog",
        &[
            (Source::Original, 0, 5),
            (Source::Original, 5, 10),
            (Source::Added, 0, 10),
            (Source::Added, 10, 14),
        ],
    );

    assert_eq!(table.location(pos(0, 0)), Location { idx: 0, offset: 0 });
    assert_eq!(table.location(pos(0, 3)), Location { idx: 0, offset: 3 });
    assert_eq!(table.location(pos(0, 5)), Location { idx: 1, offset: 0 });
    assert_eq!(table.location(pos(0, 7)), Location { idx: 1, offset: 2 });
    assert_eq!(table.location(pos(1, 2)), Location { idx: 1, offset: 7 });
    assert_eq!(table.location(pos(1, 5)), Location { idx: 2, offset: 0 });
    assert_eq!(table.location(pos(1, 7)), Location { idx: 2, offset: 2 });
    assert_eq!(table.location(pos(2, 1)), Location { idx: 2, offset: 8 });
    assert_eq!(table.location(pos(2, 10)), Location { idx: 3, offset: 7 });

    // Past the line end
    assert_eq!(table.location(pos(0, 12)), Location { idx: 1, offset: 4 });
    assert_eq!(table.location(pos(1, 15)), Location { idx: 2, offset: 6 });
    assert_eq!(table.location(pos(3, 20)), Location { idx: 4, offset: 0 });
}

#[test]
fn test_init() {
    let text = "foo bar\nbaz".to_string();
    let table = PieceTableBuffer::new(text.clone());
    assert_eq!(table.to_string(), text)
}

#[test]
fn test_insert() {
    let mut table = PieceTableBuffer::new("the jumps".to_string());

    insert_seq(0, 4, "quick fox ", &mut table);
    assert_eq!(table.to_string(), "the quick fox jumps".to_string());
    assert_eq!(table.pieces().len(), 3);

    insert_seq(0, 9, "\nbrown", &mut table);
    assert_eq!(table.to_string(), "the quick\nbrown fox jumps".to_string());
    assert_eq!(table.pieces().len(), 5);

    insert_seq(1, 15, "\nover dog", &mut table);
    assert_eq!(
        table.to_string(),
        "the quick\nbrown fox jumps\nover dog".to_string()
    );
    assert_eq!(table.pieces().len(), 6);

    insert_seq(2, 5, "the lazy ", &mut table);
    assert_eq!(
        table.to_string(),
        "the quick\nbrown fox jumps\nover the lazy dog".to_string()
    );
    assert_eq!(table.pieces().len(), 8);
}

#[test]
fn test_delete() {
    let mut table = table_of(
        "the quick\nbrown",
        " fox\njumps",
        &[
            (Source::Original, 0, 5),
            (Source::Original, 5, 10),
            (Source::Added, 0, 5),
            (Source::Added, 5, 5),
        ],
    );

    // From front
    table.delete(Range::from(pos(0, 0)));
    table.delete(Range::from(pos(0, 0)));
    table.delete(Range::from(pos(0, 0)));
    table.delete(Range::from(pos(0, 0)));
    table.delete(Range::from(pos(0, 0)));
    println!("{:?}", table.pieces());
    assert_eq!(table.to_string(), "uick\nbrown fox\njumps".to_string());
    assert_eq!(table.pieces().len(), 3);

    // From the end
    table.delete(Range::from(pos(2, 4)));
    table.delete(Range::from(pos(2, 3)));
    table.delete(Range::from(pos(2, 2)));
    table.delete(Range::from(pos(2, 1)));
    table.delete(Range::from(pos(2, 0)));
    table.delete(Range::from(pos(1, 9)));
    println!("{:?}", table.pieces());
    assert_eq!(table.to_string(), "uick\nbrown fox".to_string());
    assert_eq!(table.pieces().len(), 2);

    // From the middle
    table.delete(Range::from(pos(1, 7)));
    table.delete(Range::from(pos(1, 6)));
    println!("{:?}", table.pieces());
    assert_eq!(table.to_string(), "uick\nbrown x".to_string());
    assert_eq!(table.pieces().len(), 3);
}

#[test]
fn test_line_length() {
    let table = table_of(
        "the quick\nbrown",
        "jumped\nover the lazy dog",
        &[
            (Source::Original, 0, 5),
            (Source::Original, 5, 10),
            (Source::Added, 0, 10),
            (Source::Added, 10, 14),
        ],
    );

    assert_eq!(table.line_length(0), 9);
    assert_eq!(table.line_length(1), 11);
    assert_eq!(table.line_length(2), 17);
    assert_eq!(table.line_length(3), 0);
}
