use super::{CommandState, DeleteOperatorState, InsertState, State};
use crate::editor::{Editor, EditorView};
use crate::event::{Event, Key};
use vstd::prelude::*;

verus! {

/// The mode in which keys move the cursor and give commands.
#[derive(Clone, Copy, Debug)]
pub struct NormalState {}

impl NormalState {
    pub fn new() -> (state: Self)
        ensures
            state == (NormalState {  }),
    {
        NormalState {  }
    }

    /// What a key does in Normal mode. The motion keys move the cursor;
    /// `i`, `a`, `o` and `O` go to Insert mode, the last two behind a new
    /// line; `:` goes to Command mode; `d` waits for what to delete; `x`
    /// deletes the character before the cursor; `u` takes back the newest
    /// undo step. Normal mode itself stays. Where a key edits the document,
    /// the piece table with its undo log is what `insert` or `delete` makes
    /// of it.
    pub open spec fn handles(key: Key, before: EditorView, after: EditorView, states: Seq<State>) -> bool {
        let buffer = before.text_buffer;
        let stays = states.len() == 1 && states[0] is Normal;
        let inserts = states.len() == 2 && states[0] is Normal && states[1] is Insert;
        let same = after.text_buffer == before.text_buffer;
        &&& after.same_settings(before)
        &&& match key {
            Key::Left | Key::Char('h') => stays && after.moved(before, buffer.prev_pos()),
            Key::Right | Key::Char('l') => stays && after.moved(before, buffer.next_pos()),
            Key::Up | Key::Char('k') => stays && after.moved(before, buffer.prev_line_pos()),
            Key::Down | Key::Char('j') => stays && after.moved(before, buffer.next_line_pos()),
            Key::Char('0') => stays && after.moved(before, buffer.start_line_pos()),
            Key::Char('$') => stays && after.moved(before, buffer.end_line_pos()),
            Key::Char('i') | Key::Char('a') => inserts && same,
            Key::Char('o') => inserts && if buffer.text_buffer@.capacity() < usize::MAX
                && buffer.cursor.line < usize::MAX {
                after.text_buffer.shows(buffer.after_line_below()) && buffer.opens_below(
                    &after.text_buffer,
                )
            } else {
                same
            },
            Key::Char('O') => inserts && if buffer.text_buffer@.capacity() < usize::MAX {
                after.text_buffer.shows(buffer.after_line_above()) && buffer.opens_above(
                    &after.text_buffer,
                )
            } else {
                same
            },
            Key::Char(':') => same && states.len() == 2 && states[0] is Normal && (
            states[1] matches State::Command(command) && command.buffer.shows(
                (Seq::empty(), crate::buffer::Position { line: 0, col: 0 }),
            )),
            Key::Char('x') => stays && after.text_buffer.shows(buffer.after_delete())
                && buffer.deletes(&after.text_buffer),
            Key::Char('d') => same && states.len() == 2 && states[0] is Normal
                && states[1] is DeleteOperator,
            Key::Char('u') => stays && after.text_buffer.cursor == buffer.cursor
                && after.text_buffer.text_buffer@ == buffer.text_buffer@.undo(),
            _ => stays && same,
        }
    }

    pub fn handle_event(self, event: Event, editor: &mut Editor) -> (states: Vec<State>)
        requires
            old(editor).text_buffer.wf(),
        ensures
            final(editor).text_buffer.wf(),
            final(editor).state_stack == old(editor).state_stack,
            State::Normal(self).handles(event, old(editor)@, final(editor)@, states@),
    {
        match event {
            Event::Key(key) => self.handle_key(key, editor),
        }
    }

    fn handle_key(self, key: Key, editor: &mut Editor) -> (states: Vec<State>)
        requires
            old(editor).text_buffer.wf(),
        ensures
            final(editor).text_buffer.wf(),
            final(editor).state_stack == old(editor).state_stack,
            Self::handles(key, old(editor)@, final(editor)@, states@),
    {
        match key {
            Key::Left | Key::Char('h') => {
                let pos = editor.text_buffer.prev();
                editor.text_buffer.move_cursor(pos)
            },
            Key::Right | Key::Char('l') => {
                let pos = editor.text_buffer.next();
                editor.text_buffer.move_cursor(pos)
            },
            Key::Up | Key::Char('k') => {
                let pos = editor.text_buffer.prev_line();
                editor.text_buffer.move_cursor(pos)
            },
            Key::Down | Key::Char('j') => {
                let pos = editor.text_buffer.next_line();
                editor.text_buffer.move_cursor(pos)
            },
            Key::Char('0') => {
                let pos = editor.text_buffer.start_line();
                editor.text_buffer.move_cursor(pos)
            },
            Key::Char('$') => {
                let pos = editor.text_buffer.end_line();
                editor.text_buffer.move_cursor(pos)
            },
            Key::Char('i') | Key::Char('a') => {
                return self.push_insert();
            },
            Key::Char('o') => {
                if editor.text_buffer.text_buffer.can_grow() && editor.text_buffer.cursor.line
                    < usize::MAX {
                    editor.text_buffer.line_below();
                }
                return self.push_insert();
            },
            Key::Char('O') => {
                if editor.text_buffer.text_buffer.can_grow() {
                    editor.text_buffer.line_above();
                }
                return self.push_insert();
            },
            Key::Char(':') => {
                return self.push_command();
            },
            Key::Char('x') => editor.text_buffer.delete(),
            Key::Char('d') => {
                return self.push_state(State::DeleteOperator(DeleteOperatorState::new()));
            },
            Key::Char('u') => editor.text_buffer.text_buffer.undo(),
            _ => (),
        }
        let mut states: Vec<State> = Vec::new();
        states.push(State::Normal(self));
        states
    }

    fn push_state(self, state: State) -> (states: Vec<State>)
        ensures
            states@ == seq![State::Normal(self), state],
    {
        let mut states: Vec<State> = Vec::new();
        states.push(State::Normal(self));
        states.push(state);
        states
    }

    fn push_insert(self) -> (states: Vec<State>)
        ensures
            states@ == seq![State::Normal(self), State::Insert(InsertState {  })],
    {
        self.push_state(State::Insert(InsertState::new()))
    }

    fn push_command(self) -> (states: Vec<State>)
        ensures
            states@.len() == 2,
            states@[0] == State::Normal(self),
            states@[1] matches State::Command(command) && command.buffer.shows(
                (Seq::empty(), crate::buffer::Position { line: 0, col: 0 }),
            ),
    {
        self.push_state(State::Command(CommandState::new()))
    }
}

} // verus!
