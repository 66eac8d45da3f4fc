//! The modes of the editor. Each mode takes a key and answers with the
//! modes that stand in its place on the editor's stack.

pub mod command;
pub mod delete_operator;
pub mod insert;
pub mod normal;

pub use command::CommandState;
pub use delete_operator::DeleteOperatorState;
pub use insert::InsertState;
pub use normal::NormalState;

use crate::editor::{Editor, EditorView};
use crate::event::Event;
use vstd::prelude::*;

verus! {

/// A mode of the editor.
pub enum State {
    Normal(NormalState),
    DeleteOperator(DeleteOperatorState),
    Insert(InsertState),
    Command(CommandState),
}

/// None of the modes `states` is Normal.
pub open spec fn above_normal(states: Seq<State>) -> bool {
    forall|i: int| 0 <= i < states.len() ==> !(#[trigger] states[i] is Normal)
}

impl State {
    /// What the mode makes of `event`: the editor `after` it and the modes
    /// `states` that stand in its place.
    pub open spec fn handles(
        self,
        event: Event,
        before: EditorView,
        after: EditorView,
        states: Seq<State>,
    ) -> bool {
        match (self, event) {
            (State::Normal(_), Event::Key(key)) => NormalState::handles(key, before, after, states),
            (State::Command(s), Event::Key(key)) => s.handles(key, before, after, states),
            (State::Insert(_), Event::Key(key)) => InsertState::handles(key, before, after, states),
            (State::DeleteOperator(_), Event::Key(key)) => DeleteOperatorState::handles(
                key,
                before,
                after,
                states,
            ),
        }
    }

    /// Normal answers with itself, alone or under one other mode; any other
    /// mode answers with a mode of its own kind or with none.
    pub proof fn lemma_handles_stack(
        self,
        event: Event,
        before: EditorView,
        after: EditorView,
        states: Seq<State>,
    )
        requires
            self.handles(event, before, after, states),
        ensures
            self is Normal ==> states.len() >= 1 && states[0] is Normal && above_normal(
                states.skip(1),
            ),
            !(self is Normal) ==> above_normal(states),
    {
    }

    pub fn handle_event(self, event: Event, editor: &mut Editor) -> (states: Vec<State>)
        requires
            old(editor).text_buffer.wf(),
        ensures
            final(editor).text_buffer.wf(),
            final(editor).state_stack == old(editor).state_stack,
            self.handles(event, old(editor)@, final(editor)@, states@),
    {
        match self {
            State::Normal(s) => s.handle_event(event, editor),
            State::Command(s) => s.handle_event(event, editor),
            State::Insert(s) => s.handle_event(event, editor),
            State::DeleteOperator(s) => s.handle_event(event, editor),
        }
    }
}

} // verus!
