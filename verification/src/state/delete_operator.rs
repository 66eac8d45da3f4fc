use super::State;
use crate::editor::{Editor, EditorView};
use crate::event::{Event, Key};
use crate::text::flat::delete_at;
use crate::text::TextBuffer;
use crate::text_object::{lines_len, TextObject};
use vstd::prelude::*;

verus! {

/// The mode that waits for what to delete.
#[derive(Clone, Copy, Debug)]
pub struct DeleteOperatorState {}

impl DeleteOperatorState {
    pub fn new() -> (state: Self)
        ensures
            state == (DeleteOperatorState {  }),
    {
        DeleteOperatorState {  }
    }

    /// What a key does while a delete waits. A second `d` deletes the
    /// cursor's line with its line break and leaves the cursor where it is;
    /// any key leaves the mode.
    pub open spec fn handles(key: Key, before: EditorView, after: EditorView, states: Seq<State>) -> bool {
        let buffer = before.text_buffer;
        let line = buffer.cursor.line;
        let length = lines_len(&*buffer.text_buffer, line as int, line as int);
        &&& after.same_settings(before)
        &&& states.len() == 0
        &&& match key {
            Key::Char('d') => after.text_buffer.cursor == buffer.cursor
                && after.text_buffer.text_buffer.contents() == delete_at(
                buffer.text_buffer.contents(),
                crate::buffer::Position { line, col: 0 },
                if length > usize::MAX {
                    usize::MAX as nat
                } else {
                    length
                },
            ) && after.text_buffer.text_buffer@ == buffer.text_buffer@.delete(
                crate::text::Range {
                    start: crate::buffer::Position { line, col: 0 },
                    length: if length > usize::MAX {
                        usize::MAX
                    } else {
                        length as usize
                    },
                },
            ),
            _ => after.text_buffer == before.text_buffer,
        }
    }

    pub fn handle_event(self, event: Event, editor: &mut Editor) -> (states: Vec<State>)
        requires
            old(editor).text_buffer.wf(),
        ensures
            final(editor).text_buffer.wf(),
            final(editor).state_stack == old(editor).state_stack,
            State::DeleteOperator(self).handles(event, old(editor)@, final(editor)@, states@),
    {
        match event {
            Event::Key(key) => self.handle_key(key, editor),
        }
    }

    fn handle_key(self, key: Key, editor: &mut Editor) -> (states: Vec<State>)
        requires
            old(editor).text_buffer.wf(),
        ensures
            final(editor).text_buffer.wf(),
            final(editor).state_stack == old(editor).state_stack,
            Self::handles(key, old(editor)@, final(editor)@, states@),
    {
        match key {
            Key::Char('d') => {
                let line = editor.text_buffer.cursor.line;
                let text_object = TextObject::linewise(line, line);
                let range = text_object.range(&*editor.text_buffer.text_buffer);
                editor.text_buffer.text_buffer.delete(range);
            },
            _ => (),
        }
        Vec::new()
    }
}

} // verus!
