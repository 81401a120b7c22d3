//! Laws that relate the line commands to one another.

use super::line::{model_wf, snapshot_of, step, LineModel, StepModel};
use crate::domain::{Action, Error};
use vstd::prelude::*;

verus! {

/// Every action other than undo and redo either leaves the line as it was,
/// or records the state before it for undo and discards the redo history.
pub proof fn law_edits_are_recorded(m: LineModel, action: Action)
    requires
        !(action is Undo),
        !(action is Redo),
    ensures
        step(m, action).0.line == m.line || (step(m, action).0.undo == m.undo.push(snapshot_of(m))
            && step(m, action).0.redo == Seq::<super::line::SnapshotModel>::empty()),
{
}

/// Undo after an action that changed the line restores the line, cursor,
/// mark and input mode from before that action, and the undo history too.
pub proof fn law_undo_reverts_edit(m: LineModel, action: Action)
    requires
        !(action is Undo),
        !(action is Redo),
        step(m, action).0.line != m.line,
    ensures
        ({
            let after = step(m, action).0;
            let undone = step(after, Action::Undo).0;
            &&& undone.line == m.line
            &&& undone.cursor == m.cursor
            &&& undone.mark == m.mark
            &&& undone.input_mode == m.input_mode
            &&& undone.undo == m.undo
        }),
{
    law_edits_are_recorded(m, action);
    let after = step(m, action).0;
    assert(after.undo.drop_last() =~= m.undo);
}

/// Redo immediately after undo returns to the state before the undo.
pub proof fn law_redo_after_undo(m: LineModel)
    requires
        m.undo.len() > 0,
    ensures
        step(step(m, Action::Undo).0, Action::Redo).0 == m,
{
    let undone = step(m, Action::Undo).0;
    assert(undone.redo.drop_last() =~= m.redo);
    assert(undone.undo.push(snapshot_of(undone)) =~= m.undo);
}

/// Undo immediately after redo returns to the state before the redo.
pub proof fn law_undo_after_redo(m: LineModel)
    requires
        m.redo.len() > 0,
    ensures
        step(step(m, Action::Redo).0, Action::Undo).0 == m,
{
    let redone = step(m, Action::Redo).0;
    assert(redone.undo.drop_last() =~= m.undo);
    assert(redone.redo.push(snapshot_of(redone)) =~= m.redo);
}

/// An action that fails leaves the whole line state unchanged.
pub proof fn law_failure_changes_nothing(m: LineModel, action: Action)
    ensures
        step(m, action).1 is Err ==> step(m, action).0 == m,
{
}

/// Undo and redo of an empty history change nothing.
pub proof fn law_empty_history_is_inert(m: LineModel)
    ensures
        m.undo.len() == 0 ==> step(m, Action::Undo) == (m, Ok::<StepModel, Error>(StepModel::Applied(super::line::OutcomeModel::Continue))),
        m.redo.len() == 0 ==> step(m, Action::Redo) == (m, Ok::<StepModel, Error>(StepModel::Applied(super::line::OutcomeModel::Continue))),
{
}

} // verus!
