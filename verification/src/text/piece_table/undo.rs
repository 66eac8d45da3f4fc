//! The undo log.

use super::edit::splice;
use super::model::UndoStepView;
use super::{Piece, PieceTableBuffer};
use vstd::prelude::*;

verus! {

/// One entry of the undo log: the pieces `start..end` of the list as it is
/// stand where `pieces` stood before.
#[derive(Debug)]
pub struct UndoStep {
    pub pieces: Vec<Piece>,
    pub start: usize,
    pub end: usize,
}

impl View for UndoStep {
    type V = UndoStepView;

    open spec fn view(&self) -> UndoStepView {
        UndoStepView { start: self.start, end: self.end, pieces: self.pieces@ }
    }
}

impl UndoStep {
    pub fn new(start: usize, end: usize, pieces: Vec<Piece>) -> (step: Self)
        ensures
            step.start == start,
            step.end == end,
            step.pieces == pieces,
    {
        UndoStep { start, end, pieces }
    }
}

/// The steps of a log as mathematical values.
pub open spec fn steps_view(steps: Seq<UndoStep>) -> Seq<UndoStepView> {
    steps.map_values(|step: UndoStep| step@)
}

impl PieceTableBuffer {
    /// Takes back the newest undo step: the pieces that it holds stand
    /// again where their replacement stood. With an empty log nothing
    /// changes.
    pub fn undo(&mut self)
        requires
            old(self).wf(),
        ensures
            final(self).wf(),
            final(self)@ == old(self)@.undo(),
    {
        let ghost before = self@;
        proof {
            before.lemma_undo();
        }
        match self.undo_steps.pop() {
            Some(step) => {
                let UndoStep { pieces, start, end } = step;
                proof {
                    assert(step@ == before.undo_steps.last());
                }
                let _ = splice(&mut self.pieces, start, end, pieces);
                self.cache_idx = None;
                proof {
                    let after = before.undo();
                    assert(self@.undo_steps =~= after.undo_steps);
                    assert(self@.pieces == after.pieces);
                    assert(self@ == after);
                }
            },
            None => {
                proof {
                    assert(self@.undo_steps =~= before.undo_steps);
                    assert(self@ == before);
                }
            },
        }
    }
}

} // verus!
