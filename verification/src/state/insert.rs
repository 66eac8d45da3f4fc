use super::State;
use crate::editor::{Editor, EditorView};
use crate::event::{Event, Key};
use crate::text::piece_table::model::PieceTableView;
use vstd::prelude::*;

verus! {

/// The mode in which keys are typed into the document.
#[derive(Clone, Copy, Debug)]
pub struct InsertState {}

impl InsertState {
    pub fn new() -> (state: Self)
        ensures
            state == (InsertState {  }),
    {
        InsertState {  }
    }

    /// What a key does in Insert mode. A character is typed at the cursor,
    /// Backspace deletes the character before it, the arrows move it; the
    /// mode stays. Escape leaves the mode, and the next delete then gets an
    /// undo step of its own.
    pub open spec fn handles(key: Key, before: EditorView, after: EditorView, states: Seq<State>) -> bool {
        let buffer = before.text_buffer;
        let stays = states.len() == 1 && states[0] is Insert;
        let same = after.text_buffer == before.text_buffer;
        &&& after.same_settings(before)
        &&& match key {
            Key::Char(c) => stays && if buffer.text_buffer@.capacity() < usize::MAX
                && buffer.cursor.line < usize::MAX {
                after.text_buffer.shows(buffer.after_insert(c)) && buffer.inserts(
                    c,
                    &after.text_buffer,
                )
            } else {
                same
            },
            Key::Esc => states.len() == 0 && after.text_buffer.cursor == buffer.cursor
                && after.text_buffer.text_buffer@ == (PieceTableView {
                cache_idx: None,
                ..buffer.text_buffer@
            }),
            Key::Backspace => stays && after.text_buffer.shows(buffer.after_delete())
                && buffer.deletes(&after.text_buffer),
            Key::Left => stays && after.moved(before, buffer.prev_pos()),
            Key::Right => stays && after.moved(before, buffer.next_pos()),
            Key::Up => stays && after.moved(before, buffer.prev_line_pos()),
            Key::Down => stays && after.moved(before, buffer.next_line_pos()),
            _ => stays && same,
        }
    }

    pub fn handle_event(self, event: Event, editor: &mut Editor) -> (states: Vec<State>)
        requires
            old(editor).text_buffer.wf(),
        ensures
            final(editor).text_buffer.wf(),
            final(editor).state_stack == old(editor).state_stack,
            State::Insert(self).handles(event, old(editor)@, final(editor)@, states@),
    {
        match event {
            Event::Key(key) => self.handle_key(key, editor),
        }
    }

    fn handle_key(self, key: Key, editor: &mut Editor) -> (states: Vec<State>)
        requires
            old(editor).text_buffer.wf(),
        ensures
            final(editor).text_buffer.wf(),
            final(editor).state_stack == old(editor).state_stack,
            Self::handles(key, old(editor)@, final(editor)@, states@),
    {
        match key {
            Key::Char(c) => {
                if editor.text_buffer.text_buffer.can_grow() && editor.text_buffer.cursor.line
                    < usize::MAX {
                    editor.text_buffer.insert(c);
                }
            },
            Key::Esc => {
                editor.text_buffer.text_buffer.reset_cache();
                return Vec::new();
            },
            Key::Backspace => editor.text_buffer.delete(),
            Key::Left => {
                let pos = editor.text_buffer.prev();
                editor.text_buffer.move_cursor(pos)
            },
            Key::Right => {
                let pos = editor.text_buffer.next();
                editor.text_buffer.move_cursor(pos)
            },
            Key::Up => {
                let pos = editor.text_buffer.prev_line();
                editor.text_buffer.move_cursor(pos)
            },
            Key::Down => {
                let pos = editor.text_buffer.next_line();
                editor.text_buffer.move_cursor(pos)
            },
            _ => (),
        }
        let mut states: Vec<State> = Vec::new();
        states.push(State::Insert(self));
        states
    }
}

} // verus!
