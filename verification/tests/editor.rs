use vik::buffer::Position;
use vik::editor::{Action, Editor};
use vik::event::{Event, Key};
use vik::state::command::{is_whitespace, split_words};
use vik::state::{CommandState, DeleteOperatorState, InsertState, NormalState, State};
use vik::ui::text_window::{TextCursor, TextWindowState};

fn press(editor: &mut Editor, keys: &str) {
    for c in keys.chars() {
        editor.handle_event(Event::Key(Key::Char(c)));
    }
}

fn key(editor: &mut Editor, key: Key) {
    editor.handle_event(Event::Key(key));
}

fn text(editor: &Editor) -> String {
    editor.text_buffer.text_buffer.to_string()
}

#[test]
fn a_new_editor_is_in_normal_mode() {
    let editor = Editor::new();
    assert_eq!(editor.mode(), "NORMAL");
    assert!(matches!(editor.state(), State::Normal(_)));
    assert!(editor.running);
    assert_eq!(editor.filename, None);
    assert_eq!(text(&editor), "");
    assert_eq!(editor.state_stack.len(), 1);
    assert_eq!(editor.text_window_state.offset, 0);
}

#[test]
fn typing_goes_through_insert_mode() {
    let mut editor = Editor::new();
    press(&mut editor, "i");
    assert_eq!(editor.mode(), "INSERT");
    assert_eq!(editor.state_stack.len(), 2);
    press(&mut editor, "hello\nworld");
    assert_eq!(text(&editor), "hello\nworld");
    assert_eq!(editor.text_buffer.cursor, Position::new(1, 5));
    key(&mut editor, Key::Backspace);
    assert_eq!(text(&editor), "hello\nworl");
    key(&mut editor, Key::Left);
    key(&mut editor, Key::Up);
    assert_eq!(editor.text_buffer.cursor, Position::new(0, 3));
    key(&mut editor, Key::Right);
    key(&mut editor, Key::Down);
    assert_eq!(editor.text_buffer.cursor, Position::new(1, 4));
    key(&mut editor, Key::F(1));
    assert_eq!(editor.mode(), "INSERT");
    key(&mut editor, Key::Esc);
    assert_eq!(editor.mode(), "NORMAL");
    assert_eq!(editor.state_stack.len(), 1);
    assert_eq!(editor.text_buffer.text_buffer.cache_idx(), None);
}

#[test]
fn normal_mode_moves_the_cursor() {
    let mut editor = Editor::from_file("notes".to_string(), "ab\ncd".to_string());
    assert_eq!(editor.filename, Some("notes".to_string()));
    press(&mut editor, "l");
    assert_eq!(editor.text_buffer.cursor, Position::new(0, 1));
    press(&mut editor, "j");
    assert_eq!(editor.text_buffer.cursor, Position::new(1, 1));
    press(&mut editor, "j");
    assert_eq!(editor.text_buffer.cursor, Position::new(1, 1));
    press(&mut editor, "$");
    assert_eq!(editor.text_buffer.cursor, Position::new(1, 2));
    press(&mut editor, "h");
    assert_eq!(editor.text_buffer.cursor, Position::new(1, 1));
    press(&mut editor, "k");
    assert_eq!(editor.text_buffer.cursor, Position::new(0, 1));
    press(&mut editor, "0");
    assert_eq!(editor.text_buffer.cursor, Position::new(0, 0));
    key(&mut editor, Key::Right);
    key(&mut editor, Key::Down);
    key(&mut editor, Key::Left);
    key(&mut editor, Key::Up);
    assert_eq!(editor.text_buffer.cursor, Position::new(0, 0));
    press(&mut editor, "z");
    assert_eq!(editor.mode(), "NORMAL");
    assert_eq!(text(&editor), "ab\ncd");
}

#[test]
fn normal_mode_edits_and_undoes() {
    let mut editor = Editor::from_file("notes".to_string(), "ab\ncd".to_string());
    press(&mut editor, "lx");
    assert_eq!(text(&editor), "b\ncd");
    press(&mut editor, "u");
    assert_eq!(text(&editor), "ab\ncd");
    press(&mut editor, "o");
    assert_eq!(editor.mode(), "INSERT");
    assert_eq!(text(&editor), "ab\n\ncd");
    assert_eq!(editor.text_buffer.cursor, Position::new(1, 0));
    key(&mut editor, Key::Esc);
    press(&mut editor, "O");
    assert_eq!(text(&editor), "ab\n\n\ncd");
    key(&mut editor, Key::Esc);
    press(&mut editor, "a");
    assert_eq!(editor.mode(), "INSERT");
    assert_eq!(editor.text_buffer.cursor, Position::new(1, 0));
}

#[test]
fn dd_deletes_the_line_of_the_cursor() {
    let mut editor = Editor::from_file("notes".to_string(), "ab\ncd\nef".to_string());
    press(&mut editor, "jd");
    assert_eq!(editor.mode(), "DELETE");
    press(&mut editor, "d");
    assert_eq!(editor.mode(), "NORMAL");
    assert_eq!(text(&editor), "ab\nef");
    assert_eq!(editor.text_buffer.cursor, Position::new(1, 0));
    press(&mut editor, "dx");
    assert_eq!(editor.mode(), "NORMAL");
    assert_eq!(text(&editor), "ab\nef");
    press(&mut editor, "u");
    assert_eq!(text(&editor), "ab\ncd\nef");
}

#[test]
fn commands_ask_for_files() {
    let mut editor = Editor::new();
    press(&mut editor, ":");
    assert_eq!(editor.mode(), "COMMAND");
    press(&mut editor, "w  out.txt \n");
    assert_eq!(editor.mode(), "NORMAL");
    assert!(matches!(editor.take_action(), Action::Write(name) if name == "out.txt"));
    assert!(matches!(editor.take_action(), Action::Nothing));

    press(&mut editor, ":w\n");
    assert!(matches!(editor.take_action(), Action::Nothing));
    press(&mut editor, ":w a b\n");
    assert!(matches!(editor.take_action(), Action::Nothing));

    press(&mut editor, ":edit in.txt\n");
    assert_eq!(editor.filename, Some("in.txt".to_string()));
    assert!(matches!(editor.take_action(), Action::Edit(name) if name == "in.txt"));
    editor.load("read\nfrom disk".to_string());
    assert_eq!(text(&editor), "read\nfrom disk");

    press(&mut editor, ":w\n");
    assert!(matches!(editor.take_action(), Action::Write(name) if name == "in.txt"));
    press(&mut editor, ":e other\n");
    assert_eq!(editor.filename, Some("other".to_string()));
    assert!(matches!(editor.take_action(), Action::Edit(name) if name == "other"));
    press(&mut editor, ":e\n");
    assert!(matches!(editor.take_action(), Action::Nothing));
    press(&mut editor, ":nothing here\n");
    press(&mut editor, ":\n");
    assert!(matches!(editor.take_action(), Action::Nothing));
    assert!(editor.running);
    assert_eq!(editor.mode(), "NORMAL");

    press(&mut editor, ":q\n");
    assert!(!editor.running);
}

#[test]
fn loading_keeps_all_but_the_document() {
    let mut editor = Editor::from_file("notes".to_string(), "ab\ncd".to_string());
    assert_eq!(editor.text_window_state.offset, 0);
    assert_eq!(editor.text_buffer.cursor, Position::new(0, 0));
    press(&mut editor, "jlx:e other\n");
    editor.text_window_state.scroll(30, 10);
    editor.load("new text".to_string());
    assert_eq!(text(&editor), "new text");
    assert_eq!(editor.text_buffer.cursor, Position::new(0, 0));
    assert_eq!(editor.text_buffer.text_buffer.undo_steps().len(), 0);
    assert_eq!(editor.text_window_state.offset, 21);
    assert!(matches!(editor.action, Action::Edit(ref name) if name == "other"));
    assert_eq!(editor.filename, Some("other".to_string()));
    assert!(editor.running);
    assert_eq!(editor.state_stack.len(), 1);
}

#[test]
fn x_and_backspace_share_the_undo_log_of_the_piece_table() {
    let mut editor = Editor::from_file("notes".to_string(), "abcdef".to_string());
    press(&mut editor, "$xxx");
    assert_eq!(text(&editor), "abc");
    assert_eq!(editor.text_buffer.text_buffer.undo_steps().len(), 1);
    press(&mut editor, "u");
    assert_eq!(text(&editor), "abcdef");
    press(&mut editor, "i");
    press(&mut editor, "xy");
    key(&mut editor, Key::Backspace);
    key(&mut editor, Key::Backspace);
    assert_eq!(text(&editor), "abcdef");
    key(&mut editor, Key::Esc);
    assert_eq!(editor.text_buffer.text_buffer.cache_idx(), None);
}

#[test]
fn the_command_line_is_edited() {
    let mut editor = Editor::new();
    press(&mut editor, ":wx");
    key(&mut editor, Key::Backspace);
    key(&mut editor, Key::Left);
    press(&mut editor, "q");
    key(&mut editor, Key::Right);
    key(&mut editor, Key::Right);
    match editor.state() {
        State::Command(command) => {
            assert_eq!(command.buffer.text_buffer.to_string(), "qw");
            assert_eq!(command.buffer.cursor, Position::new(0, 2));
        }
        _ => panic!("the editor left command mode"),
    }
    key(&mut editor, Key::Esc);
    assert_eq!(editor.mode(), "NORMAL");
    assert_eq!(editor.state_stack.len(), 1);
    assert!(editor.running);
}

#[test]
fn modes_are_made_empty() {
    let command = CommandState::new();
    assert_eq!(command.buffer.text_buffer.to_string(), "");
    assert_eq!(command.buffer.cursor, Position::new(0, 0));
    let mut editor = Editor::new();
    assert_eq!(NormalState::new().handle_event(Event::Key(Key::Null), &mut editor).len(), 1);
    assert_eq!(InsertState::new().handle_event(Event::Key(Key::Esc), &mut editor).len(), 0);
    let states = DeleteOperatorState::new().handle_event(Event::Key(Key::Null), &mut editor);
    assert_eq!(states.len(), 0);
    let states = State::Normal(NormalState::new()).handle_event(Event::Key(Key::Char('d')), &mut editor);
    assert!(matches!(states[1], State::DeleteOperator(_)));
}

#[test]
fn words_are_parted_by_white_space() {
    let words = |text: &str| -> Vec<String> {
        split_words(&text.chars().collect())
            .iter()
            .map(|word| word.iter().collect())
            .collect()
    };
    assert_eq!(words("w  out.txt "), vec!["w", "out.txt"]);
    assert_eq!(words("  \t "), Vec::<String>::new());
    assert_eq!(words(""), Vec::<String>::new());
    assert_eq!(words("one"), vec!["one"]);
    assert_eq!(words("a\u{a0}b\u{3000}c\nd"), vec!["a", "b", "c", "d"]);
    for c in ['\t', '\n', '\u{b}', '\u{c}', '\r', ' ', '\u{85}', '\u{a0}', '\u{1680}', '\u{2000}',
        '\u{200a}', '\u{2028}', '\u{2029}', '\u{202f}', '\u{205f}', '\u{3000}']
    {
        assert!(is_whitespace(c));
        assert!(c.is_whitespace());
    }
    for c in ['a', '0', '\u{8}', '\u{e}', '\u{200b}', '\u{feff}', '-'] {
        assert!(!is_whitespace(c));
        assert!(!c.is_whitespace());
    }
}

#[test]
fn the_window_follows_the_cursor() {
    let mut window = TextWindowState::new();
    assert_eq!(window.offset, 0);
    window.scroll(3, 10);
    assert_eq!(window.offset, 0);
    window.scroll(10, 10);
    assert_eq!(window.offset, 1);
    window.scroll(25, 10);
    assert_eq!(window.offset, 16);
    window.scroll(20, 10);
    assert_eq!(window.offset, 16);
    window.scroll(4, 10);
    assert_eq!(window.offset, 4);
    window.scroll(7, 0);
    assert_eq!(window.offset, 8);
    let cursor = TextCursor { line: 1, col: 2, style: "block" };
    assert_eq!((cursor.line, cursor.col, cursor.style), (1, 2, "block"));
}
