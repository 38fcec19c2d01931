use tasky::actions::{apply_action, key_to_action, Action, Effect, UiState};
use tasky::domain::task::Status;
use tasky::views::KeyAction;

fn state(selected: Option<i64>, editing: Option<i64>, buf: &str) -> UiState {
    UiState { selected, editing, edit_buf: buf.to_string(), focus_edit: false }
}

#[test]
fn delete_clears_selection_and_edit() {
    let (s, e, changed) = apply_action(state(Some(3), Some(3), "x"), Action::Delete(3));
    assert_eq!(s.selected, None);
    assert_eq!(s.editing, None);
    assert!(matches!(e, Effect::DeleteTask(3)));
    assert!(changed);
    let (s2, _, _) = apply_action(state(Some(4), Some(5), ""), Action::Delete(3));
    assert_eq!(s2.selected, Some(4));
    assert_eq!(s2.editing, Some(5));
}

#[test]
fn editing_a_title() {
    let (s, e, changed) = apply_action(state(None, None, ""), Action::StartEdit(7, "viejo".into()));
    assert_eq!(s.selected, Some(7));
    assert_eq!(s.editing, Some(7));
    assert_eq!(s.edit_buf, "viejo");
    assert!(s.focus_edit);
    assert!(matches!(e, Effect::Nothing));
    assert!(!changed);

    let (s, e, changed) = apply_action(state(Some(7), Some(7), "  nuevo  "), Action::SaveEdit(7));
    assert_eq!(s.editing, None);
    assert!(s.edit_buf.is_empty());
    assert!(matches!(e, Effect::Retitle(7, ref t) if t == "nuevo"));
    assert!(changed);

    let (_, e, _) = apply_action(state(Some(7), Some(7), "   "), Action::SaveEdit(7));
    assert!(matches!(e, Effect::Nothing));

    let (s, e, changed) = apply_action(state(Some(7), Some(7), "abc"), Action::CancelEdit);
    assert_eq!(s.editing, None);
    assert!(s.edit_buf.is_empty());
    assert!(matches!(e, Effect::Nothing));
    assert!(!changed);
}

#[test]
fn store_effects_of_actions() {
    let (_, e, changed) = apply_action(state(None, None, ""), Action::Reopen(2));
    assert!(matches!(e, Effect::SetStatus(2, Status::Todo)));
    assert!(changed);
    let (_, e, _) = apply_action(state(None, None, ""), Action::Complete(2));
    assert!(matches!(e, Effect::CompleteAndRegenerate(2)));
    let (_, e, changed) = apply_action(state(None, None, ""), Action::Sync);
    assert!(matches!(e, Effect::Sync));
    assert!(!changed);
    let (_, e, changed) = apply_action(state(None, None, ""), Action::CheckRepos);
    assert!(matches!(e, Effect::CheckRepos));
    assert!(changed);
    assert!(matches!(key_to_action(KeyAction::ToggleUrgent(9)), Action::ToggleUrgent(9)));
}
