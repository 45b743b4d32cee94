use lazydeck::bindings::{EntryKeymap, KeyHit};
use lazydeck::confirm_keys::ConfirmKeyAction;
use lazydeck::dialogs::{ConfirmButton, SelectDialog, SelectOption};
use lazydeck::input_keys::InputKeyAction;
use lazydeck::key_dispatch::KeyOutcome;
use lazydeck::keymap::{Keymap, Mode};
use lazydeck::keys::{KeyCode, KeyEvent, KeyModifiers, KeySequence};
use lazydeck::select_keys::SelectKeyAction;
use lazydeck::state::State;

type TestState = State<u32, &'static str, String, String, &'static str>;

fn key(code: KeyCode) -> KeyEvent {
    KeyEvent::new(code, KeyModifiers::empty())
}

fn ch(c: char) -> KeyEvent {
    key(KeyCode::Char(c))
}

fn with_confirm(on_cancel: Option<&'static str>) -> TestState {
    let mut state = TestState::new();
    state.show_confirm_dialog(Some("Delete".to_string()), "Really?".to_string(), "yes", on_cancel);
    state
}

fn options(names: &[&'static str]) -> Vec<SelectOption<&'static str>> {
    names.iter().map(|n| SelectOption { value: *n, display: n.to_string() }).collect()
}

fn with_select(names: &[&'static str]) -> TestState {
    let mut state = TestState::new();
    state.select_dialog = Some(SelectDialog::new(Some("Pick".to_string()), options(names), "chosen"));
    state
}

fn selected(state: &TestState) -> Option<usize> {
    state.select_dialog.as_ref().unwrap().selected_index
}

#[test]
fn confirm_arrows_toggle_the_highlighted_button() {
    let mut state = with_confirm(None);
    assert!(matches!(state.handle_confirm_dialog_key(key(KeyCode::Right)), ConfirmKeyAction::Toggled));
    assert_eq!(state.get_selected_button(), Some(ConfirmButton::No));
    assert!(matches!(state.handle_confirm_dialog_key(ch('h')), ConfirmKeyAction::Toggled));
    assert_eq!(state.get_selected_button(), Some(ConfirmButton::Yes));
    assert!(matches!(state.handle_confirm_dialog_key(key(KeyCode::Tab)), ConfirmKeyAction::Toggled));
    assert_eq!(state.get_selected_button(), Some(ConfirmButton::No));
}

#[test]
fn confirm_enter_answers_with_the_highlighted_button() {
    let mut state = with_confirm(Some("no"));
    assert!(matches!(state.handle_confirm_dialog_key(key(KeyCode::Enter)), ConfirmKeyAction::Confirm("yes")));
    assert!(state.confirm_dialog.is_none());

    let mut state = with_confirm(Some("no"));
    state.toggle_confirm_button();
    assert!(matches!(state.handle_confirm_dialog_key(key(KeyCode::Enter)), ConfirmKeyAction::Cancel(Some("no"))));
    assert!(state.confirm_dialog.is_none());
}

#[test]
fn confirm_letters_and_escape_answer_directly() {
    let mut state = with_confirm(None);
    state.toggle_confirm_button();
    assert!(matches!(state.handle_confirm_dialog_key(ch('y')), ConfirmKeyAction::Confirm("yes")));

    let mut state = with_confirm(None);
    assert!(matches!(state.handle_confirm_dialog_key(ch('n')), ConfirmKeyAction::Cancel(None)));

    let mut state = with_confirm(Some("no"));
    assert!(matches!(state.handle_confirm_dialog_key(key(KeyCode::Esc)), ConfirmKeyAction::Cancel(Some("no"))));
}

#[test]
fn confirm_other_keys_change_nothing() {
    let mut state = with_confirm(None);
    assert!(matches!(state.handle_confirm_dialog_key(ch('x')), ConfirmKeyAction::Unhandled));
    assert_eq!(state.get_selected_button(), Some(ConfirmButton::Yes));
    let mut empty = TestState::new();
    assert!(matches!(empty.handle_confirm_dialog_key(key(KeyCode::Enter)), ConfirmKeyAction::Unhandled));
}

#[test]
fn select_moves_with_arrows_and_vi_keys() {
    let mut state = with_select(&["alpha", "beta", "gamma"]);
    assert!(matches!(state.handle_select_dialog_key(ch('j'), 10), SelectKeyAction::Updated));
    assert_eq!(selected(&state), Some(1));
    state.handle_select_dialog_key(key(KeyCode::Down), 10);
    assert_eq!(selected(&state), Some(2));
    // past the last option the selection wraps to the first
    state.handle_select_dialog_key(key(KeyCode::Down), 10);
    assert_eq!(selected(&state), Some(0));
    state.handle_select_dialog_key(ch('k'), 10);
    assert_eq!(selected(&state), Some(2));
    state.handle_select_dialog_key(key(KeyCode::Up), 10);
    assert_eq!(selected(&state), Some(1));
}

#[test]
fn select_pages_and_ends() {
    let mut state = with_select(&["a1", "a2", "a3", "a4", "a5", "a6"]);
    state.handle_select_dialog_key(key(KeyCode::PageDown), 4);
    assert_eq!(selected(&state), Some(4));
    state.handle_select_dialog_key(key(KeyCode::PageDown), 4);
    assert_eq!(selected(&state), Some(5));
    state.handle_select_dialog_key(key(KeyCode::PageUp), 2);
    assert_eq!(selected(&state), Some(3));
    state.handle_select_dialog_key(key(KeyCode::Home), 4);
    assert_eq!(selected(&state), Some(0));
    state.handle_select_dialog_key(key(KeyCode::End), 4);
    assert_eq!(selected(&state), Some(5));
}

#[test]
fn select_typing_filters_case_insensitively() {
    let mut state = with_select(&["Python", "JavaScript", "Lua", "Rust"]);
    state.handle_select_dialog_key(ch('U'), 10);
    let dialog = state.select_dialog.as_ref().unwrap();
    assert_eq!(dialog.filter_input, "U");
    assert_eq!(dialog.filtered_options, vec![2, 3]);
    state.handle_select_dialog_key(ch('s'), 10);
    assert_eq!(state.select_dialog.as_ref().unwrap().filtered_options, vec![3]);
    state.handle_select_dialog_key(key(KeyCode::Backspace), 10);
    assert_eq!(state.select_dialog.as_ref().unwrap().filtered_options, vec![2, 3]);
    state.handle_select_dialog_key(key(KeyCode::Left), 10);
    assert_eq!(state.select_dialog.as_ref().unwrap().cursor_position, 0);
    state.handle_select_dialog_key(key(KeyCode::Delete), 10);
    let dialog = state.select_dialog.as_ref().unwrap();
    assert_eq!(dialog.filter_input, "");
    assert_eq!(dialog.filtered_options, vec![0, 1, 2, 3]);
}

#[test]
fn select_control_u_clears_before_the_cursor() {
    let mut state = with_select(&["one", "two"]);
    state.handle_select_dialog_key(ch('t'), 10);
    state.handle_select_dialog_key(ch('w'), 10);
    assert_eq!(state.select_dialog.as_ref().unwrap().filtered_options, vec![1]);
    state.handle_select_dialog_key(KeyEvent::new(KeyCode::Char('u'), KeyModifiers::ctrl()), 10);
    let dialog = state.select_dialog.as_ref().unwrap();
    assert_eq!(dialog.filter_input, "");
    assert_eq!(dialog.filtered_options, vec![0, 1]);
}

#[test]
fn select_enter_hands_back_the_selected_value() {
    let mut state = with_select(&["alpha", "beta", "gamma"]);
    state.handle_select_dialog_key(ch('j'), 10);
    match state.handle_select_dialog_key(key(KeyCode::Enter), 10) {
        SelectKeyAction::Done(callback, value) => {
            assert_eq!(callback, "chosen");
            assert_eq!(value, Some("beta"));
        }
        _ => panic!("expected the dialog to close"),
    }
    assert!(state.select_dialog.is_none());
}

#[test]
fn select_escape_and_empty_filter_hand_back_nothing() {
    let mut state = with_select(&["alpha", "beta"]);
    assert!(matches!(state.handle_select_dialog_key(key(KeyCode::Esc), 10), SelectKeyAction::Done("chosen", None)));
    assert!(state.select_dialog.is_none());

    let mut state = with_select(&["alpha", "beta"]);
    state.handle_select_dialog_key(ch('z'), 10);
    assert_eq!(selected(&state), None);
    assert!(matches!(state.handle_select_dialog_key(key(KeyCode::Enter), 10), SelectKeyAction::Done("chosen", None)));
}

#[test]
fn select_ignores_other_keys() {
    let mut state = with_select(&["alpha"]);
    assert!(matches!(state.handle_select_dialog_key(key(KeyCode::F(2)), 10), SelectKeyAction::Unhandled));
    assert_eq!(selected(&state), Some(0));
}

#[test]
fn dispatch_prefers_confirm_then_select_then_input() {
    let none: Vec<EntryKeymap<&'static str>> = Vec::new();
    let mut state = with_confirm(None);
    state.select_dialog = Some(SelectDialog::new(None, options(&["a"]), "chosen"));
    assert!(matches!(state.handle_key(ch('y'), false, &none, 10), KeyOutcome::Confirm(ConfirmKeyAction::Confirm("yes"))));
    assert!(matches!(state.handle_key(key(KeyCode::Esc), false, &none, 10), KeyOutcome::Select(SelectKeyAction::Done("chosen", None))));

    let mut state = TestState::new();
    state.show_input_dialog("Name".to_string(), String::new(), String::new(), "submit", "cancel", "change");
    match state.handle_key(ch('a'), false, &none, 10) {
        KeyOutcome::Input(InputKeyAction::Changed(text, "change")) => assert_eq!(text, "a"),
        _ => panic!("expected the input dialog to take the key"),
    }
}

#[test]
fn dispatch_dialogs_ignore_released_keys() {
    let none: Vec<EntryKeymap<&'static str>> = Vec::new();
    let mut state = with_confirm(None);
    assert!(matches!(state.handle_key(ch('y'), true, &none, 10), KeyOutcome::Confirm(ConfirmKeyAction::Unhandled)));
    assert!(state.confirm_dialog.is_some());
    let mut state = with_select(&["a"]);
    assert!(matches!(state.handle_key(key(KeyCode::Enter), true, &none, 10), KeyOutcome::Select(SelectKeyAction::Unhandled)));
    assert!(state.select_dialog.is_some());
}

#[test]
fn dispatch_without_dialogs_goes_to_bindings() {
    let none: Vec<EntryKeymap<&'static str>> = Vec::new();
    let mut state = TestState::new();
    state.add_keymap(Keymap {
        mode: Mode::Main,
        raw_key: "q".to_string(),
        key_sequence: KeySequence::from("q"),
        callback: "quit",
        desc: None,
        path: None,
    });
    assert!(matches!(state.handle_key(ch('q'), false, &none, 10), KeyOutcome::Binding(Some(KeyHit::Config(0)))));
    assert!(matches!(state.handle_key(ch('x'), false, &none, 10), KeyOutcome::Binding(None)));
}

#[test]
fn a_selection_needs_an_option() {
    assert_eq!(lazydeck::dialogs::require_options::<u8>(Vec::new()).err(), Some("Options cannot be empty"));
    let kept = lazydeck::dialogs::require_options(options(&["a", "b"])).ok().unwrap();
    assert_eq!(kept.len(), 2);
}
