//! What the window's actions do besides the store: the selection and the
//! title being edited change here, and each action names the work it leaves
//! for the store and the program (the effect), and whether the lists must
//! be reloaded.

use vstd::prelude::*;

use crate::domain::task::{Status, TaskId};
use crate::panels::{field_text, field_value};
use crate::views::KeyAction;

verus! {

/// The part of the window's state the actions change.
#[derive(Clone, Debug)]
pub struct UiState {
    /// The selected task.
    pub selected: Option<TaskId>,
    /// The task whose title is being edited.
    pub editing: Option<TaskId>,
    /// The title being typed.
    pub edit_buf: String,
    /// Give the focus to the title field on the next frame.
    pub focus_edit: bool,
}

/// An action collected while drawing.
#[derive(Clone, Debug)]
pub enum Action {
    QuickAdd(String),
    Complete(TaskId),
    Reopen(TaskId),
    Delete(TaskId),
    StartEdit(TaskId, String),
    SaveEdit(TaskId),
    CancelEdit,
    ToggleUrgent(TaskId),
    ToggleImportant(TaskId),
    AddDependency(TaskId, TaskId),
    RemoveDependency(TaskId, TaskId),
    LinkRepo(TaskId, String, String),
    UnlinkRepo(TaskId),
    CheckRepos,
    Sync,
    Pull,
    CheckUpdate,
    CreateProject(String),
}

/// The work an action leaves for the store and the program.
#[derive(Clone, Debug)]
pub enum Effect {
    /// Nothing.
    Nothing,
    /// Parse the line and create the task, its project and its tags.
    QuickAdd(String),
    /// Complete the task and create its next occurrence when recurring.
    CompleteAndRegenerate(TaskId),
    /// Set the status of the task.
    SetStatus(TaskId, Status),
    /// Delete the task (and its subtasks).
    DeleteTask(TaskId),
    /// Give the task this title.
    Retitle(TaskId, String),
    /// Flip the urgent flag of the task.
    ToggleUrgent(TaskId),
    /// Flip the important flag of the task.
    ToggleImportant(TaskId),
    /// The first task depends on the second.
    AddDependency(TaskId, TaskId),
    /// The first task no longer depends on the second.
    RemoveDependency(TaskId, TaskId),
    /// Link the task to the repository at the path with the keyword, from
    /// the repository's current HEAD.
    LinkRepo(TaskId, String, String),
    /// Unlink the task from its repository.
    UnlinkRepo(TaskId),
    /// Look for the keywords in the linked repositories.
    CheckRepos,
    /// Export, commit and push.
    Sync,
    /// Pull from the remote.
    Pull,
    /// Look for a new release.
    CheckUpdate,
    /// Create a project with this name.
    CreateProject(String),
}

/// The action of a key.
pub fn key_to_action(a: KeyAction) -> (r: Action)
    ensures
        r == (match a {
            KeyAction::Complete(id) => Action::Complete(id),
            KeyAction::Reopen(id) => Action::Reopen(id),
            KeyAction::StartEdit(id, title) => Action::StartEdit(id, title),
            KeyAction::Delete(id) => Action::Delete(id),
            KeyAction::ToggleUrgent(id) => Action::ToggleUrgent(id),
            KeyAction::ToggleImportant(id) => Action::ToggleImportant(id),
        }),
{
    match a {
        KeyAction::Complete(id) => Action::Complete(id),
        KeyAction::Reopen(id) => Action::Reopen(id),
        KeyAction::StartEdit(id, title) => Action::StartEdit(id, title),
        KeyAction::Delete(id) => Action::Delete(id),
        KeyAction::ToggleUrgent(id) => Action::ToggleUrgent(id),
        KeyAction::ToggleImportant(id) => Action::ToggleImportant(id),
    }
}

/// `None` when `o` is `Some(id)`, else `o`.
pub open spec fn cleared_if(o: Option<TaskId>, id: TaskId) -> Option<TaskId> {
    if o == Some(id) {
        None
    } else {
        o
    }
}

/// Does the action change what the store holds (so that the lists are
/// reloaded)? Editing, cancelling and the background work do not.
pub open spec fn changes_store(a: Action) -> bool {
    match a {
        Action::StartEdit(_, _) => false,
        Action::CancelEdit => false,
        Action::Sync => false,
        Action::Pull => false,
        Action::CheckUpdate => false,
        _ => true,
    }
}

/// The effect of an action other than saving an edit (whose effect depends
/// on the title typed, see [`apply_action`]).
pub open spec fn effect_of(a: Action) -> Effect {
    match a {
        Action::QuickAdd(raw) => Effect::QuickAdd(raw),
        Action::Complete(id) => Effect::CompleteAndRegenerate(id),
        Action::Reopen(id) => Effect::SetStatus(id, Status::Todo),
        Action::Delete(id) => Effect::DeleteTask(id),
        Action::StartEdit(_, _) => Effect::Nothing,
        Action::SaveEdit(_) => Effect::Nothing,
        Action::CancelEdit => Effect::Nothing,
        Action::ToggleUrgent(id) => Effect::ToggleUrgent(id),
        Action::ToggleImportant(id) => Effect::ToggleImportant(id),
        Action::AddDependency(a, b) => Effect::AddDependency(a, b),
        Action::RemoveDependency(a, b) => Effect::RemoveDependency(a, b),
        Action::LinkRepo(id, p, k) => Effect::LinkRepo(id, p, k),
        Action::UnlinkRepo(id) => Effect::UnlinkRepo(id),
        Action::CheckRepos => Effect::CheckRepos,
        Action::Sync => Effect::Sync,
        Action::Pull => Effect::Pull,
        Action::CheckUpdate => Effect::CheckUpdate,
        Action::CreateProject(name) => Effect::CreateProject(name),
    }
}

/// Applies an action to the window's state: the new state, the work left
/// for the store and the program, and whether the lists must be reloaded.
/// Deleting a task drops it from the selection and from editing; starting
/// an edit selects the task and puts its title in the field; saving gives
/// the task the trimmed title (nothing when it is blank) and ends the edit;
/// cancelling ends it.
pub fn apply_action(state: UiState, a: Action) -> (r: (UiState, Effect, bool))
    ensures
        r.2 == changes_store(a),
        match a {
            Action::SaveEdit(id) => match field_value(state.edit_buf@) {
                Some(t) => r.1 matches Effect::Retitle(x, title) && x == id && title@ == t,
                None => r.1 matches Effect::Nothing,
            },
            _ => r.1 == effect_of(a),
        },
        match a {
            Action::Delete(id) => r.0.selected == cleared_if(state.selected, id) && r.0.editing == cleared_if(
                state.editing,
                id,
            ) && r.0.edit_buf == state.edit_buf && r.0.focus_edit == state.focus_edit,
            Action::StartEdit(id, title) => r.0.selected == Some(id) && r.0.editing == Some(id) && r.0.edit_buf
                == title && r.0.focus_edit,
            Action::SaveEdit(_) => r.0.selected == state.selected && r.0.editing is None && r.0.edit_buf@.len()
                == 0 && r.0.focus_edit == state.focus_edit,
            Action::CancelEdit => r.0.selected == state.selected && r.0.editing is None && r.0.edit_buf@.len() == 0
                && r.0.focus_edit == state.focus_edit,
            _ => r.0 == state,
        },
{
    let changed = match &a {
        Action::StartEdit(_, _) => false,
        Action::CancelEdit => false,
        Action::Sync => false,
        Action::Pull => false,
        Action::CheckUpdate => false,
        _ => true,
    };
    let UiState { selected, editing, edit_buf, focus_edit } = state;
    match a {
        Action::QuickAdd(raw) => (UiState { selected, editing, edit_buf, focus_edit }, Effect::QuickAdd(raw), changed),
        Action::Complete(id) => (
            UiState { selected, editing, edit_buf, focus_edit },
            Effect::CompleteAndRegenerate(id),
            changed,
        ),
        Action::Reopen(id) => (
            UiState { selected, editing, edit_buf, focus_edit },
            Effect::SetStatus(id, Status::Todo),
            changed,
        ),
        Action::Delete(id) => {
            let editing = if editing == Some(id) {
                None
            } else {
                editing
            };
            let selected = if selected == Some(id) {
                None
            } else {
                selected
            };
            (UiState { selected, editing, edit_buf, focus_edit }, Effect::DeleteTask(id), changed)
        },
        Action::StartEdit(id, title) => (
            UiState { selected: Some(id), editing: Some(id), edit_buf: title, focus_edit: true },
            Effect::Nothing,
            changed,
        ),
        Action::SaveEdit(id) => {
            let effect = match field_text(edit_buf.as_str()) {
                Some(t) => Effect::Retitle(id, t),
                None => Effect::Nothing,
            };
            (UiState { selected, editing: None, edit_buf: String::new(), focus_edit }, effect, changed)
        },
        Action::CancelEdit => (
            UiState { selected, editing: None, edit_buf: String::new(), focus_edit },
            Effect::Nothing,
            changed,
        ),
        Action::ToggleUrgent(id) => (
            UiState { selected, editing, edit_buf, focus_edit },
            Effect::ToggleUrgent(id),
            changed,
        ),
        Action::ToggleImportant(id) => (
            UiState { selected, editing, edit_buf, focus_edit },
            Effect::ToggleImportant(id),
            changed,
        ),
        Action::AddDependency(x, y) => (
            UiState { selected, editing, edit_buf, focus_edit },
            Effect::AddDependency(x, y),
            changed,
        ),
        Action::RemoveDependency(x, y) => (
            UiState { selected, editing, edit_buf, focus_edit },
            Effect::RemoveDependency(x, y),
            changed,
        ),
        Action::LinkRepo(id, p, k) => (
            UiState { selected, editing, edit_buf, focus_edit },
            Effect::LinkRepo(id, p, k),
            changed,
        ),
        Action::UnlinkRepo(id) => (UiState { selected, editing, edit_buf, focus_edit }, Effect::UnlinkRepo(id), changed),
        Action::CheckRepos => (UiState { selected, editing, edit_buf, focus_edit }, Effect::CheckRepos, changed),
        Action::Sync => (UiState { selected, editing, edit_buf, focus_edit }, Effect::Sync, changed),
        Action::Pull => (UiState { selected, editing, edit_buf, focus_edit }, Effect::Pull, changed),
        Action::CheckUpdate => (UiState { selected, editing, edit_buf, focus_edit }, Effect::CheckUpdate, changed),
        Action::CreateProject(name) => (
            UiState { selected, editing, edit_buf, focus_edit },
            Effect::CreateProject(name),
            changed,
        ),
    }
}

} // verus!
