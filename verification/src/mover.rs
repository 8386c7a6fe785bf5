//! The mover: how one file gets from its place to its destination.
//!
//! A move is tried as a rename first. Where the rename fails, the file is
//! copied and the source removed. The library decides the next step from
//! the result of the last one; the caller carries each step out.

use vstd::prelude::*;

verus! {

/// How a move ended.
#[derive(Debug)]
pub enum MoveOutcome {
    /// The rename went through.
    Renamed,
    /// The rename failed; the file was copied and the source removed.
    Copied,
    /// The rename failed and the file was copied, but the source could not
    /// be removed: the file is now in both places. The text is the reason.
    SourceRetained(String),
    /// The rename failed and so did the copy: the source is untouched. The
    /// text is the reason that the copy gave.
    Failed(String),
}

/// What is to be done next for a move.
#[derive(Debug)]
pub enum MoveStep {
    /// Rename the source to the destination.
    Rename,
    /// Copy the source to the destination.
    Copy,
    /// Remove the source.
    RemoveSource,
    /// Nothing: the move has ended.
    Done(MoveOutcome),
}

/// The step that follows `step` once it has given `result`.
pub open spec fn step_after(step: MoveStep, result: Result<(), String>) -> MoveStep {
    match (step, result) {
        (MoveStep::Rename, Ok(_)) => MoveStep::Done(MoveOutcome::Renamed),
        (MoveStep::Rename, Err(_)) => MoveStep::Copy,
        (MoveStep::Copy, Ok(_)) => MoveStep::RemoveSource,
        (MoveStep::Copy, Err(reason)) => MoveStep::Done(MoveOutcome::Failed(reason)),
        (MoveStep::RemoveSource, Ok(_)) => MoveStep::Done(MoveOutcome::Copied),
        (MoveStep::RemoveSource, Err(reason)) => MoveStep::Done(
            MoveOutcome::SourceRetained(reason),
        ),
        (MoveStep::Done(outcome), _) => MoveStep::Done(outcome),
    }
}

/// Whether the file has reached its destination.
pub open spec fn has_arrived(outcome: MoveOutcome) -> bool {
    !(outcome is Failed)
}

/// Every move ends with the third result at the latest, and it fails only
/// where both the rename and the copy failed.
pub proof fn lemma_move_ends(
    first: Result<(), String>,
    second: Result<(), String>,
    third: Result<(), String>,
)
    ensures
        step_after(step_after(step_after(MoveStep::Rename, first), second), third) is Done,
        has_arrived(step_after(step_after(step_after(MoveStep::Rename, first), second), third)->0)
            <==> first is Ok || second is Ok,
{
}

impl MoveOutcome {
    /// Whether the file has reached its destination. A source that could
    /// not be removed after the copy does not undo that.
    pub fn arrived(&self) -> (arrived: bool)
        ensures
            arrived == has_arrived(*self),
    {
        match self {
            MoveOutcome::Failed(_) => false,
            _ => true,
        }
    }
}

impl MoveStep {
    /// The step with which every move begins.
    pub fn first() -> (step: MoveStep)
        ensures
            step == MoveStep::Rename,
    {
        MoveStep::Rename
    }

    /// The step that follows this one once it has given `result`. A move
    /// that has ended stays as it is.
    pub fn next(self, result: Result<(), String>) -> (step: MoveStep)
        ensures
            step == step_after(self, result),
    {
        match self {
            MoveStep::Rename => match result {
                Ok(_) => MoveStep::Done(MoveOutcome::Renamed),
                Err(_) => MoveStep::Copy,
            },
            MoveStep::Copy => match result {
                Ok(_) => MoveStep::RemoveSource,
                Err(reason) => MoveStep::Done(MoveOutcome::Failed(reason)),
            },
            MoveStep::RemoveSource => match result {
                Ok(_) => MoveStep::Done(MoveOutcome::Copied),
                Err(reason) => MoveStep::Done(MoveOutcome::SourceRetained(reason)),
            },
            MoveStep::Done(outcome) => MoveStep::Done(outcome),
        }
    }
}

} // verus!
