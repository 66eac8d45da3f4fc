//! The editor: a document with its cursor, and the stack of modes.

use crate::buffer::{Buffer, Position};
use crate::text::piece_table::model::PieceTableView;
use crate::event::Event;
use crate::state::{above_normal, NormalState, State};
use crate::text::PieceTableBuffer;
use crate::ui::text_window::TextWindowState;
use vstd::prelude::*;

verus! {

/// What the editor asks of its surroundings after an event.
#[derive(Debug)]
pub enum Action {
    /// Nothing.
    Nothing,
    /// Write the document to the file named.
    Write(String),
    /// Read the file named and hand its text to `Editor::load`.
    Edit(String),
}

pub struct Editor {
    pub text_buffer: Buffer<PieceTableBuffer>,
    pub state_stack: Vec<State>,
    pub running: bool,
    pub filename: Option<String>,
    pub text_window_state: TextWindowState,
    pub action: Action,
}

/// All that the editor holds but its stack of modes.
pub struct EditorView {
    pub text_buffer: Buffer<PieceTableBuffer>,
    pub running: bool,
    pub filename: Option<String>,
    pub text_window_state: TextWindowState,
    pub action: Action,
}

impl View for Editor {
    type V = EditorView;

    open spec fn view(&self) -> EditorView {
        EditorView {
            text_buffer: self.text_buffer,
            running: self.running,
            filename: self.filename,
            text_window_state: self.text_window_state,
            action: self.action,
        }
    }
}

impl EditorView {
    /// All but the document is as in `other`.
    pub open spec fn same_settings(self, other: EditorView) -> bool {
        &&& self.running == other.running
        &&& self.filename == other.filename
        &&& self.text_window_state == other.text_window_state
        &&& self.action == other.action
    }

    /// The document is that of `other`, and the cursor stands at `pos`.
    pub open spec fn moved(self, other: EditorView, pos: Position) -> bool {
        &&& self.text_buffer.text_buffer == other.text_buffer.text_buffer
        &&& self.text_buffer.cursor == pos
    }
}

impl Editor {
    /// The document is in order, and the stack of modes holds Normal at its
    /// bottom and nowhere else.
    pub open spec fn wf(&self) -> bool {
        &&& self.text_buffer.wf()
        &&& self.state_stack@.len() >= 1
        &&& self.state_stack@[0] is Normal
        &&& above_normal(self.state_stack@.subrange(1, self.state_stack@.len() as int))
    }

    /// The editor over an empty document, in Normal mode.
    pub fn new() -> (editor: Self)
        ensures
            editor.wf(),
            editor.text_buffer.text_buffer@ == PieceTableView::initial(Seq::empty()),
            editor.text_buffer.text_buffer@.text() == Seq::<char>::empty(),
            editor.text_buffer.cursor == (Position { line: 0, col: 0 }),
            editor.state_stack@.len() == 1,
            editor.running,
            editor.filename is None,
            editor.text_window_state.offset == 0,
            editor.action is Nothing,
    {
        let mut state_stack: Vec<State> = Vec::new();
        state_stack.push(State::Normal(NormalState::new()));
        let table = PieceTableBuffer::new(String::new());
        assert(state_stack@.subrange(1, 1) =~= Seq::<State>::empty());
        Editor {
            text_buffer: Buffer::new(Box::new(table)),
            state_stack,
            running: true,
            filename: None,
            text_window_state: TextWindowState::new(),
            action: Action::Nothing,
        }
    }

    /// The name of the mode on top of the stack.
    pub fn mode(&self) -> (name: &'static str)
        requires
            self.wf(),
        ensures
            name@ == match self.state_stack@.last() {
                State::Insert(_) => "INSERT"@,
                State::Command(_) => "COMMAND"@,
                State::Normal(_) => "NORMAL"@,
                State::DeleteOperator(_) => "DELETE"@,
            },
    {
        match self.state() {
            State::Insert(_) => "INSERT",
            State::Command(_) => "COMMAND",
            State::Normal(_) => "NORMAL",
            State::DeleteOperator(_) => "DELETE",
        }
    }

    /// The mode on top of the stack.
    pub fn state(&self) -> (state: &State)
        requires
            self.wf(),
        ensures
            *state == self.state_stack@.last(),
    {
        &self.state_stack[self.state_stack.len() - 1]
    }

    /// The editor over the text `content` of the file `filename`, in Normal
    /// mode.
    pub fn from_file(filename: String, content: String) -> (editor: Self)
        ensures
            editor.wf(),
            editor.text_buffer.text_buffer@ == PieceTableView::initial(content@),
            editor.text_buffer.text_buffer@.text() == content@,
            editor.text_buffer.cursor == (Position { line: 0, col: 0 }),
            editor.state_stack@.len() == 1,
            editor.running,
            editor.filename == Some(filename),
            editor.text_window_state.offset == 0,
            editor.action is Nothing,
    {
        let mut editor = Editor::new();
        editor.text_buffer = Buffer::new(Box::new(PieceTableBuffer::new(content)));
        editor.filename = Some(filename);
        editor
    }

    /// Puts `content` in place of the document, with an empty undo log and
    /// the cursor at its start: the answer to `Action::Edit`. All else stays.
    pub fn load(&mut self, content: String)
        requires
            old(self).wf(),
        ensures
            final(self).wf(),
            final(self).text_buffer.text_buffer@ == PieceTableView::initial(content@),
            final(self).text_buffer.text_buffer@.text() == content@,
            final(self).text_buffer.cursor == (Position { line: 0, col: 0 }),
            final(self).state_stack == old(self).state_stack,
            final(self).running == old(self).running,
            final(self).filename == old(self).filename,
            final(self).text_window_state == old(self).text_window_state,
            final(self).action == old(self).action,
    {
        self.text_buffer = Buffer::new(Box::new(PieceTableBuffer::new(content)));
    }

    /// Hands out what the last event asked for, and forgets it.
    pub fn take_action(&mut self) -> (action: Action)
        ensures
            action == old(self).action,
            final(self).action is Nothing,
            final(self).text_buffer == old(self).text_buffer,
            final(self).state_stack == old(self).state_stack,
            final(self).running == old(self).running,
            final(self).filename == old(self).filename,
            final(self).text_window_state == old(self).text_window_state,
    {
        let mut action = Action::Nothing;
        std::mem::swap(&mut self.action, &mut action);
        action
    }

    /// Lets the mode on top of the stack handle `event`; the modes that it
    /// answers with take its place.
    pub fn handle_event(&mut self, event: Event)
        requires
            old(self).wf(),
        ensures
            final(self).wf(),
            final(self).state_stack@.len() >= old(self).state_stack@.len() - 1,
            final(self).state_stack@.take(old(self).state_stack@.len() - 1) == old(
                self,
            ).state_stack@.drop_last(),
            old(self).state_stack@.last().handles(
                event,
                old(self)@,
                final(self)@,
                final(self).state_stack@.skip(old(self).state_stack@.len() - 1),
            ),
    {
        let ghost stack = self.state_stack@;
        let state = self.state_stack.pop().unwrap();
        assert(self@ == old(self)@);
        let mut new_states = state.handle_event(event, self);
        let ghost handled = self@;
        proof {
            assert(state == stack.last());
            if stack.len() > 1 {
                assert(stack.subrange(1, stack.len() as int)[stack.len() - 2] == stack.last());
            }
        }
        let ghost added = new_states@;
        self.state_stack.append(&mut new_states);
        assert(self@ == handled);
        proof {
            let after = self.state_stack@;
            assert(after =~= stack.drop_last() + added);
            assert(after.take(stack.len() - 1) =~= stack.drop_last());
            assert(after.skip(stack.len() - 1) =~= added);
            assert forall|i: int| 0 <= i < after.len() - 1 implies !(#[trigger] after.subrange(
                1,
                after.len() as int,
            )[i] is Normal) by {
                if i + 1 < stack.len() - 1 {
                    assert(stack.subrange(1, stack.len() as int)[i] == after[i + 1]);
                }
            }
        }
    }
}

} // verus!
