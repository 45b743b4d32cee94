use lazydeck::bindings::{EntryKeymap, KeyHit, KeymapSource};
use lazydeck::input_keys::InputKeyAction;
use lazydeck::keymap::{Keymap, KeymapPathPattern, Mode};
use lazydeck::keys::{KeyCode, KeyEvent, KeyModifiers, KeySequence};
use lazydeck::page::PageEntry;
use lazydeck::state::State;

type TestState = State<u32, &'static str, String, String, String>;

fn noop() -> &'static str {
    "noop"
}

fn entry(key: &str) -> PageEntry<u32> {
    PageEntry { key: key.to_string(), display_text: key.to_string(), data: 0 }
}

fn entry_keymap(key: &str, callback: &'static str, desc: Option<&str>) -> EntryKeymap<&'static str> {
    EntryKeymap {
        key: key.to_string(),
        key_sequence: KeySequence::from(key),
        callback,
        desc: desc.map(|d| d.to_string()),
    }
}

fn keymap(key: &str, callback: &'static str, desc: Option<&str>, path: Option<Vec<&str>>) -> Keymap<&'static str> {
    Keymap {
        mode: Mode::Main,
        raw_key: key.to_string(),
        key_sequence: KeySequence::from(key),
        callback,
        desc: desc.map(|d| d.to_string()),
        path: path.map(|p| KeymapPathPattern::new(p.into_iter().map(|s| s.to_string()).collect())),
    }
}

fn press(c: char) -> KeyEvent {
    KeyEvent::new(KeyCode::Char(c), KeyModifiers::empty())
}

/// The callback a resolved binding runs.
fn callback_of(state: &TestState, entry_keymaps: &[EntryKeymap<&'static str>], hit: KeyHit) -> &'static str {
    match hit {
        KeyHit::Entry(i) => entry_keymaps[i].callback,
        KeyHit::Config(i) => state.keymap_config[i].callback,
    }
}

fn show_dialog(state: &mut TestState, value: &str) {
    state.show_input_dialog(
        "Search".to_string(),
        "keyword".to_string(),
        value.to_string(),
        noop(),
        noop(),
        noop(),
    );
}

#[test]
fn input_dialog_backspace_handles_utf8() {
    let mut state = TestState::new();
    show_dialog(&mut state, "");
    let dialog = state.input_dialog.as_mut().unwrap();
    dialog.insert_char('搜');
    dialog.insert_char('索');

    dialog.backspace();
    assert_eq!(dialog.text, "搜");
    assert_eq!(dialog.cursor_position, '搜'.len_utf8());

    dialog.backspace();
    assert_eq!(dialog.text, "");
    assert_eq!(dialog.cursor_position, 0);
}

#[test]
fn input_dialog_initial_value_places_cursor_at_end() {
    let mut state = TestState::new();
    show_dialog(&mut state, "abc");
    let dialog = state.input_dialog.as_ref().unwrap();
    assert_eq!(dialog.text, "abc");
    assert_eq!(dialog.cursor_position, 3);
}

#[test]
fn show_and_close_input_dialog_switches_mode() {
    let mut state = TestState::new();
    show_dialog(&mut state, "");

    assert_eq!(state.current_mode, Mode::Input);
    assert!(state.input_dialog.is_some());

    let dialog = state.close_input_dialog();
    assert!(dialog.is_some());
    assert_eq!(state.current_mode, Mode::Main);
    assert!(state.input_dialog.is_none());
}

#[test]
fn entry_keymap_overrides_global_keymap() {
    let mut state = TestState::new();
    state.set_current_page_entries(vec![entry("item")]);
    let entry_keys = vec![entry_keymap("x", "entry", None)];
    state.add_keymap(keymap("x", "global", None, None));

    let hit = state.tap_key(press('x'), &entry_keys).unwrap();
    assert_eq!(callback_of(&state, &entry_keys, hit), "entry");
}

#[test]
fn global_keymap_is_used_when_entry_keymap_has_no_match() {
    let mut state = TestState::new();
    state.set_current_page_entries(vec![entry("item")]);
    let entry_keys = vec![entry_keymap("y", "entry", None)];
    state.add_keymap(keymap("x", "global", None, None));

    let hit = state.tap_key(press('x'), &entry_keys).unwrap();
    assert_eq!(callback_of(&state, &entry_keys, hit), "global");
}

#[test]
fn entry_prefix_match_blocks_global_shortcut() {
    let mut state = TestState::new();
    state.set_current_page_entries(vec![entry("item")]);
    let entry_keys = vec![entry_keymap("gg", "entry", None)];
    state.add_keymap(keymap("g", "global", None, None));

    let first = state.tap_key(press('g'), &entry_keys);
    assert!(first.is_none());
    assert_eq!(state.last_key_event_buffer.len(), 1);

    let second = state.tap_key(press('g'), &entry_keys).unwrap();
    assert_eq!(callback_of(&state, &entry_keys, second), "entry");
    assert!(state.last_key_event_buffer.is_empty());
}

#[test]
fn scrolling_clears_pending_key_sequence() {
    let mut state = TestState::new();
    state.set_current_page_entries(vec![entry("item")]);
    let entry_keys = vec![entry_keymap("gg", "entry", None)];

    let first = state.tap_key(press('g'), &entry_keys);
    assert!(first.is_none());
    assert_eq!(state.last_key_event_buffer.len(), 1);

    state.scroll_by(1);
    assert!(state.last_key_event_buffer.is_empty());
}

#[test]
fn available_keymaps_include_entry_page_and_global_desc() {
    let mut state = TestState::new();
    state.current_path = vec!["docker".to_string(), "container".to_string()];
    state.set_current_page_entries(vec![entry("item")]);
    let entry_keys = vec![entry_keymap("x", "entry", Some("play song"))];
    state.add_keymap(keymap("p", "page", Some("page action"), Some(vec!["docker", "container"])));
    state.add_keymap(keymap("q", "global", Some("quit"), None));

    let keymaps = state.available_keymaps(&entry_keys);

    assert_eq!(keymaps.len(), 3);
    assert_eq!(keymaps[0].source.as_str(), "entry");
    assert_eq!(keymaps[0].key, "x");
    assert_eq!(keymaps[0].desc.as_deref(), Some("play song"));
    assert_eq!(keymaps[1].source.as_str(), "page");
    assert_eq!(keymaps[1].key, "p");
    assert_eq!(keymaps[1].desc.as_deref(), Some("page action"));
    assert_eq!(keymaps[2].source.as_str(), "global");
    assert_eq!(keymaps[2].key, "q");
    assert_eq!(keymaps[2].desc.as_deref(), Some("quit"));
}

#[test]
fn page_keymap_overrides_global_keymap() {
    let mut state = TestState::new();
    state.current_path = vec!["docker".to_string(), "container".to_string()];
    state.add_keymap(keymap("x", "global", None, None));
    state.add_keymap(keymap("x", "page", Some("page"), Some(vec!["docker", "container"])));

    let hit = state.tap_key(press('x'), &[]).unwrap();
    assert_eq!(callback_of(&state, &[], hit), "page");
}

#[test]
fn exact_page_keymap_overrides_wildcard_page_keymap() {
    let mut state = TestState::new();
    state.current_path = vec!["mail".to_string(), "inbox".to_string()];
    state.add_keymap(keymap("x", "wildcard", None, Some(vec!["mail", "*"])));
    state.add_keymap(keymap("x", "exact", None, Some(vec!["mail", "inbox"])));

    let hit = state.tap_key(press('x'), &[]).unwrap();
    assert_eq!(callback_of(&state, &[], hit), "exact");
}

#[test]
fn wildcard_page_keymap_is_used_when_exact_has_no_matching_key() {
    let mut state = TestState::new();
    state.current_path = vec!["mail".to_string(), "inbox".to_string()];
    state.add_keymap(keymap("y", "exact", None, Some(vec!["mail", "inbox"])));
    state.add_keymap(keymap("x", "wildcard", None, Some(vec!["mail", "*"])));

    let hit = state.tap_key(press('x'), &[]).unwrap();
    assert_eq!(callback_of(&state, &[], hit), "wildcard");
}

#[test]
fn page_keymap_is_overwritten_for_same_path() {
    let mut state = TestState::new();
    state.current_path = vec!["docker".to_string(), "container".to_string()];
    state.add_keymap(keymap("x", "old", None, Some(vec!["docker", "container"])));
    state.add_keymap(keymap("x", "new", Some("page"), Some(vec!["docker", "container"])));

    let hit = state.tap_key(press('x'), &[]).unwrap();
    assert_eq!(callback_of(&state, &[], hit), "new");
}

#[test]
fn entry_keymap_still_overrides_page_keymap() {
    let mut state = TestState::new();
    state.current_path = vec!["docker".to_string(), "container".to_string()];
    state.set_current_page_entries(vec![entry("item")]);
    let entry_keys = vec![entry_keymap("x", "entry", None)];
    state.add_keymap(keymap("x", "page", None, Some(vec!["docker", "container"])));

    let keymaps = state.available_keymaps(&entry_keys);

    assert_eq!(keymaps.len(), 2);
    assert_eq!(keymaps[0].source.as_str(), "entry");
    assert_eq!(keymaps[0].key, "x");
    assert_eq!(keymaps[1].source.as_str(), "page");

    let hit = state.tap_key(press('x'), &entry_keys).unwrap();
    assert_eq!(callback_of(&state, &entry_keys, hit), "entry");
}

#[test]
fn set_hover_by_path_selects_matching_entry_on_current_page() {
    let mut state = TestState::new();
    state.current_path = vec!["file".to_string(), "tmp".to_string()];
    state.set_current_page_entries(vec![entry("a"), entry("b"), entry("c")]);

    assert!(state.set_hover_by_path(&["file".into(), "tmp".into(), "c".into()]));
    assert_eq!(state.hovered().map(|entry| entry.key.as_str()), Some("c"));
}

#[test]
fn set_hover_by_path_ignores_other_pages() {
    let mut state = TestState::new();
    state.current_path = vec!["file".to_string(), "tmp".to_string()];
    state.set_current_page_entries(vec![entry("a")]);

    assert!(!state.set_hover_by_path(&["file".into(), "other".into(), "a".into()]));
    assert_eq!(state.hovered().map(|entry| entry.key.as_str()), Some("a"));
}

#[test]
fn go_to_records_history_and_pop_history_returns_previous_path() {
    let mut state = TestState::new();

    state.set_current_page_entries(vec![entry("github")]);
    assert!(!state.go_to(vec!["github".to_string()], true));

    state.set_current_page_entries(vec![entry("search")]);
    assert!(!state.go_to(vec!["github".to_string(), "search".to_string()], true));

    let Some(path) = state.pop_history_path() else {
        panic!("expected history entry");
    };
    assert_eq!(path, vec!["github".to_string()]);
    assert_eq!(state.current_path, vec!["github".to_string(), "search".to_string()]);
}

#[test]
fn pop_history_path_skips_current_page_duplicates() {
    let mut state = TestState::new();

    state.set_current_page_entries(vec![entry("github")]);
    assert!(!state.go_to(vec!["github".to_string()], true));
    state.set_current_page_entries(vec![entry("search")]);

    assert!(state.go_to(vec!["github".to_string()], true));
    let Some(path) = state.pop_history_path() else {
        panic!("expected history entry");
    };
    assert_eq!(path, Vec::<String>::new());
    assert_eq!(state.current_path, vec!["github".to_string()]);
}

#[test]
fn go_to_same_path_does_not_push_history() {
    let mut state = TestState::new();

    state.set_current_page_entries(vec![entry("github")]);
    assert!(!state.go_to(vec!["github".to_string()], true));
    state.set_current_page_entries(vec![entry("search")]);

    assert!(state.go_to(vec!["github".to_string()], true));
    assert!(state.pop_history_path().is_some());
    assert!(state.pop_history_path().is_none());
}

#[test]
fn history_forward_returns_to_page_after_history_back() {
    let mut state = TestState::new();

    state.set_current_page_entries(vec![entry("github")]);
    assert!(!state.go_to(vec!["github".to_string()], true));
    state.set_current_page_entries(vec![entry("search")]);
    assert!(!state.go_to(vec!["github".to_string(), "search".to_string()], true));

    let back_path = state.pop_history_path().expect("expected back history");
    assert_eq!(back_path, vec!["github".to_string()]);
    assert!(state.go_to(back_path, false));

    let forward_path = state.pop_forward_history_path().expect("expected forward history");
    assert_eq!(forward_path, vec!["github".to_string(), "search".to_string()]);
}

#[test]
fn normal_navigation_clears_forward_history() {
    let mut state = TestState::new();

    state.set_current_page_entries(vec![entry("github")]);
    assert!(!state.go_to(vec!["github".to_string()], true));
    state.set_current_page_entries(vec![entry("search")]);
    assert!(!state.go_to(vec!["github".to_string(), "search".to_string()], true));

    let back_path = state.pop_history_path().expect("expected back history");
    assert!(state.go_to(back_path, false));
    state.set_current_page_entries(vec![entry("issues")]);
    assert!(!state.go_to(vec!["github".to_string(), "issues".to_string()], true));

    assert!(state.pop_forward_history_path().is_none());
}

#[test]
fn cached_preview_is_restored_when_hover_returns_to_entry() {
    let mut state = TestState::new();
    state.current_path = vec!["file".to_string()];
    state.set_current_page_entries(vec![entry("a"), entry("b")]);

    let path_a = vec!["file".to_string(), "a".to_string()];
    let path_b = vec!["file".to_string(), "b".to_string()];

    state.set_preview_for_path(&path_a, Some("preview-a".to_string()));
    assert!(state.current_preview.is_some());

    state.scroll_by(1);
    assert!(!state.restore_preview_for_hovered());
    assert!(state.current_preview.is_none());

    state.set_preview_for_path(&path_b, Some("preview-b".to_string()));
    assert!(state.current_preview.is_some());

    state.scroll_by(-1);
    assert!(state.restore_preview_for_hovered());
    assert!(state.current_preview.is_some());
}

#[test]
fn stale_async_preview_result_is_cached_for_non_hovered_entry() {
    let mut state = TestState::new();
    state.current_path = vec!["file".to_string()];
    state.set_current_page_entries(vec![entry("a"), entry("b")]);

    let path_a = vec!["file".to_string(), "a".to_string()];
    state.scroll_by(1);
    state.set_preview_for_path(&path_a, Some("late-preview-a".to_string()));

    assert_eq!(state.hovered().map(|entry| entry.key.as_str()), Some("b"));
    assert!(state.current_preview.is_none());

    state.scroll_by(-1);
    assert!(state.restore_preview_for_hovered());
    assert!(state.current_preview.is_some());
}

#[test]
fn input_keymap_can_override_builtin_shortcut() {
    let mut state = TestState::new();
    show_dialog(&mut state, "abc");
    state.add_keymap(Keymap {
        mode: Mode::Input,
        raw_key: "<C-a>".to_string(),
        key_sequence: KeySequence::from("<C-a>"),
        callback: "hit",
        desc: None,
        path: None,
    });

    let action = state.handle_input_dialog_key(KeyEvent::new(KeyCode::Char('a'), KeyModifiers::ctrl()), false);
    match action {
        InputKeyAction::Run(hit) => assert_eq!(callback_of(&state, &[], hit), "hit"),
        _ => panic!("expected the binding to run"),
    }
    assert_eq!(state.input_dialog.as_ref().unwrap().cursor_position, 3);
}

#[test]
fn enter_is_not_builtin_without_input_keymap() {
    let mut state = TestState::new();
    show_dialog(&mut state, "abc");

    let action = state.handle_input_dialog_key(KeyEvent::new(KeyCode::Enter, KeyModifiers::empty()), false);
    assert!(matches!(action, InputKeyAction::Unhandled));
    assert!(state.input_dialog.is_some());
    assert_eq!(state.input_dialog.as_ref().unwrap().text, "abc");
}

#[test]
fn typed_character_edits_input_dialog() {
    let mut state = TestState::new();
    show_dialog(&mut state, "ab");
    state.input_dialog.as_mut().unwrap().cursor_left();

    match state.handle_input_dialog_key(press('x'), false) {
        InputKeyAction::Changed(text, _) => assert_eq!(text, "axb"),
        _ => panic!("expected a change"),
    }
    assert_eq!(state.input_dialog.as_ref().unwrap().cursor_position, 2);
    assert!(matches!(
        state.handle_input_dialog_key(KeyEvent::new(KeyCode::Left, KeyModifiers::empty()), false),
        InputKeyAction::Moved
    ));
    assert_eq!(state.input_dialog.as_ref().unwrap().cursor_position, 1);
    match state.handle_input_dialog_key(KeyEvent::new(KeyCode::Backspace, KeyModifiers::empty()), false) {
        InputKeyAction::Changed(text, _) => assert_eq!(text, "xb"),
        _ => panic!("expected a change"),
    }
    assert!(matches!(state.handle_input_dialog_key(press('z'), true), InputKeyAction::Unhandled));
    assert_eq!(state.input_dialog.as_ref().unwrap().text, "xb");
}

#[test]
fn back_after_go_to_returns_previous_path_and_forward_undoes_it() {
    let mut state = TestState::new();
    state.set_current_page_entries(vec![entry("a")]);
    assert!(!state.go_to(vec!["a".to_string()], true));
    let back = state.pop_history_path().unwrap();
    assert_eq!(back, Vec::<String>::new());
    assert!(state.go_to(back, false));
    assert_eq!(state.pop_forward_history_path(), Some(vec!["a".to_string()]));
}

#[test]
fn page_is_restored_with_selection_when_navigating_back() {
    let mut state = TestState::new();
    state.set_current_page_entries(vec![entry("a"), entry("b"), entry("c")]);
    state.scroll_by(2);
    assert_eq!(state.hovered().map(|e| e.key.as_str()), Some("c"));
    state.go_to(vec!["c".to_string()], true);
    assert!(state.hovered().is_none());
    let back = state.pop_history_path().unwrap();
    assert!(state.go_to(back, false));
    assert_eq!(state.hovered().map(|e| e.key.as_str()), Some("c"));
}

#[test]
fn notifications_expire_after_their_time() {
    let mut state = TestState::new();
    let id = state.push_notification("hello".to_string(), 1000);
    assert_eq!(state.notifications.len(), 1);
    assert!(!state.prune_expired_notifications(1000 + 2999));
    assert!(state.prune_expired_notifications(1000 + 3000));
    assert!(state.notifications.is_empty());
    assert!(!state.expire_notification(id));
}

#[test]
fn tabs_keep_their_own_paths() {
    let mut state = TestState::new();
    state.set_current_page_entries(vec![entry("a")]);
    state.go_to(vec!["a".to_string()], true);
    state.new_tab(vec!["b".to_string()]);
    assert_eq!(state.tab_count(), 2);
    assert_eq!(state.active_tab_index(), 1);
    assert_eq!(state.current_path, vec!["b".to_string()]);
    assert!(state.switch_tab(0));
    assert_eq!(state.current_path, vec!["a".to_string()]);
    assert!(state.next_tab());
    assert_eq!(state.current_path, vec!["b".to_string()]);
    assert!(state.close_current_tab());
    assert_eq!(state.tab_count(), 1);
    assert_eq!(state.current_path, vec!["a".to_string()]);
}
