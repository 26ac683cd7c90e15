use rrsreadline::matching::Suggestion;
use rrsreadline::state::{EditorEvent, EditorState, EngineOutput};

fn suggestions() -> Vec<Suggestion> {
    ["git status", "git diff"]
        .into_iter()
        .map(|text| Suggestion { text: text.into() })
        .collect()
}

#[test]
fn navigation_wraps() {
    let mut state = EditorState::default();
    let items = suggestions();
    state.handle(EditorEvent::MoveDown, &items);
    assert_eq!(state.selected(), Some(0));
    state.handle(EditorEvent::MoveUp, &items);
    assert_eq!(state.selected(), Some(1));
}

#[test]
fn down_wraps_to_first_and_up_undoes_down() {
    let mut state = EditorState::default();
    let items = suggestions();
    assert_eq!(state.handle(EditorEvent::MoveDown, &items), None);
    assert_eq!(state.handle(EditorEvent::MoveDown, &items), None);
    assert_eq!(state.selected(), Some(1));
    state.handle(EditorEvent::MoveDown, &items);
    assert_eq!(state.selected(), Some(0));
    state.handle(EditorEvent::MoveDown, &items);
    state.handle(EditorEvent::MoveUp, &items);
    assert_eq!(state.selected(), Some(0));
}

#[test]
fn up_from_nothing_selects_last() {
    let mut state = EditorState::default();
    state.handle(EditorEvent::MoveUp, &suggestions());
    assert_eq!(state.selected(), Some(1));
}

#[test]
fn accept_and_delete_report_the_selection() {
    let mut state = EditorState::default();
    let items = suggestions();
    assert_eq!(state.handle(EditorEvent::Accept, &items), None);
    assert_eq!(state.handle(EditorEvent::DeleteSelected, &items), None);
    state.handle(EditorEvent::MoveDown, &items);
    assert_eq!(
        state.handle(EditorEvent::Accept, &items),
        Some(EngineOutput::Accepted("git status".to_string()))
    );
    assert_eq!(
        state.handle(EditorEvent::DeleteSelected, &items),
        Some(EngineOutput::Delete("git status".to_string()))
    );
    assert_eq!(state.selected(), Some(0));
    assert_eq!(state.handle(EditorEvent::Accept, &items[..0]), None);
}

#[test]
fn cancel_and_edit_clear_the_selection() {
    let mut state = EditorState::default();
    let items = suggestions();
    state.handle(EditorEvent::MoveDown, &items);
    assert_eq!(state.handle(EditorEvent::Cancel, &items), Some(EngineOutput::Cancelled));
    assert_eq!(state.selected(), None);
    state.handle(EditorEvent::MoveDown, &items);
    assert_eq!(state.handle(EditorEvent::TextChanged, &items), None);
    assert_eq!(state.selected(), None);
}

#[test]
fn empty_list_has_no_selection() {
    let mut state = EditorState::default();
    state.handle(EditorEvent::MoveDown, &suggestions());
    state.handle(EditorEvent::MoveDown, &[]);
    assert_eq!(state.selected(), None);
    state.handle(EditorEvent::MoveUp, &[]);
    assert_eq!(state.selected(), None);
}
