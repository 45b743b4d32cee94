use lazydeck::keymap::KeymapPathPattern;
use lazydeck::keys::{KeyCode, KeyEvent, KeyModifiers, KeySequence};

#[test]
fn test_ctrl_d() {
    let keyseq = KeySequence::from("ctrl-d");
    assert_eq!(keyseq.0.len(), 1);
    assert!(keyseq.0[0].modifiers.contains(KeyModifiers::ctrl()));
    assert_eq!(keyseq.0[0].code, KeyCode::Char('d'));
}

#[test]
fn test_ctrl_x_angle_bracket() {
    let keyseq = KeySequence::from("<C-x>");
    assert_eq!(keyseq.0.len(), 1);
    assert!(keyseq.0[0].modifiers.contains(KeyModifiers::ctrl()));
    assert_eq!(keyseq.0[0].code, KeyCode::Char('x'));
}

#[test]
fn test_ctrl_c() {
    let keyseq = KeySequence::from("ctrl-c");
    assert_eq!(keyseq.0.len(), 1);
    assert!(keyseq.0[0].modifiers.contains(KeyModifiers::ctrl()));
    assert_eq!(keyseq.0[0].code, KeyCode::Char('c'));
}

#[test]
fn test_ctrl_i_angle_bracket() {
    let keyseq = KeySequence::from("<C-i>");
    assert_eq!(keyseq.0.len(), 1);
    assert!(keyseq.0[0].modifiers.contains(KeyModifiers::ctrl()));
    assert_eq!(keyseq.0[0].code, KeyCode::Char('i'));
}

#[test]
fn test_ctrl_i_matches_legacy_tab_event() {
    let keyseq = KeySequence::from("<C-i>");
    assert!(keyseq.all_match(&[KeyEvent::new(KeyCode::Tab, KeyModifiers::empty())]));
    assert!(keyseq.all_match(&[KeyEvent::new(KeyCode::Char('\t'), KeyModifiers::empty())]));
}

#[test]
fn test_alt_k_angle_bracket() {
    let keyseq = KeySequence::from("<A-k>");
    assert_eq!(keyseq.0.len(), 1);
    assert!(keyseq.0[0].modifiers.contains(KeyModifiers::alt_only()));
    assert_eq!(keyseq.0[0].code, KeyCode::Char('k'));
}

#[test]
fn test_alt_a() {
    let keyseq = KeySequence::from("alt-a");
    assert_eq!(keyseq.0.len(), 1);
    assert!(keyseq.0[0].modifiers.contains(KeyModifiers::alt_only()));
    assert_eq!(keyseq.0[0].code, KeyCode::Char('a'));
}

#[test]
fn test_simple_char() {
    let keyseq = KeySequence::from("x");
    assert_eq!(keyseq.0.len(), 1);
    assert_eq!(keyseq.0[0].modifiers, KeyModifiers::empty());
    assert_eq!(keyseq.0[0].code, KeyCode::Char('x'));
}

#[test]
fn test_double_d() {
    let keyseq = KeySequence::from("dd");
    assert_eq!(keyseq.0.len(), 2);
    assert_eq!(keyseq.0[0].code, KeyCode::Char('d'));
    assert_eq!(keyseq.0[1].code, KeyCode::Char('d'));
    assert!(!keyseq.0[0].modifiers.contains(KeyModifiers::ctrl()));
    assert!(!keyseq.0[1].modifiers.contains(KeyModifiers::ctrl()));
}

#[test]
fn test_down_as_four_chars() {
    let keyseq = KeySequence::from("down");
    assert_eq!(keyseq.0.len(), 4);
    assert_eq!(keyseq.0[0].code, KeyCode::Char('d'));
    assert_eq!(keyseq.0[1].code, KeyCode::Char('o'));
    assert_eq!(keyseq.0[2].code, KeyCode::Char('w'));
    assert_eq!(keyseq.0[3].code, KeyCode::Char('n'));
}

#[test]
fn test_down_angle_bracket() {
    let keyseq = KeySequence::from("<down>");
    assert_eq!(keyseq.0.len(), 1);
    assert_eq!(keyseq.0[0].code, KeyCode::Down);
}

#[test]
fn test_up_angle_bracket() {
    let keyseq = KeySequence::from("<up>");
    assert_eq!(keyseq.0.len(), 1);
    assert_eq!(keyseq.0[0].code, KeyCode::Up);
}

#[test]
fn test_double_w_angle_bracket() {
    let keyseq = KeySequence::from("ww");
    assert_eq!(keyseq.0.len(), 2);
    assert_eq!(keyseq.0[0].code, KeyCode::Char('w'));
    assert_eq!(keyseq.0[1].code, KeyCode::Char('w'));
}

#[test]
fn test_mixed_sequence() {
    let keyseq = KeySequence::from("<C-x><C-c>");
    assert_eq!(keyseq.0.len(), 2);
    assert!(keyseq.0[0].modifiers.contains(KeyModifiers::ctrl()));
    assert_eq!(keyseq.0[0].code, KeyCode::Char('x'));
    assert!(keyseq.0[1].modifiers.contains(KeyModifiers::ctrl()));
    assert_eq!(keyseq.0[1].code, KeyCode::Char('c'));
}

#[test]
fn test_space() {
    let keyseq = KeySequence::from("<space>");
    assert_eq!(keyseq.0.len(), 1);
    assert_eq!(keyseq.0[0].code, KeyCode::Char(' '));
}

#[test]
fn test_f_key() {
    let keyseq = KeySequence::from("<f5>");
    assert_eq!(keyseq.0.len(), 1);
    assert_eq!(keyseq.0[0].code, KeyCode::F(5));
}

#[test]
fn test_enter() {
    let keyseq = KeySequence::from("<enter>");
    assert_eq!(keyseq.0.len(), 1);
    assert_eq!(keyseq.0[0].code, KeyCode::Enter);
}

#[test]
fn path_pattern_star_matches_one_segment() {
    let pattern = KeymapPathPattern::new(vec!["mail".into(), "*".into()]);

    assert!(pattern.matches(&["mail".into(), "inbox".into()]));
    assert!(!pattern.matches(&["mail".into()]));
    assert!(!pattern.matches(&["mail".into(), "inbox".into(), "thread".into()]));
}

#[test]
fn path_pattern_globstar_matches_zero_or_more_segments() {
    let pattern = KeymapPathPattern::new(vec!["mail".into(), "**".into()]);

    assert!(pattern.matches(&["mail".into()]));
    assert!(pattern.matches(&["mail".into(), "inbox".into()]));
    assert!(pattern.matches(&["mail".into(), "inbox".into(), "thread".into()]));
    assert!(!pattern.matches(&["docker".into(), "inbox".into()]));
}

#[test]
fn path_pattern_priority_prefers_more_specific_patterns() {
    let exact = KeymapPathPattern::new(vec!["mail".into(), "inbox".into()]);
    let star = KeymapPathPattern::new(vec!["mail".into(), "*".into()]);
    let globstar = KeymapPathPattern::new(vec!["mail".into(), "**".into()]);

    assert!(exact.priority() < star.priority());
    assert!(star.priority() < globstar.priority());
}

#[test]
fn path_match_supports_star_and_globstar() {
    let path = vec!["docker".to_string(), "container".to_string(), "abc".to_string()];
    assert!(KeymapPathPattern::from_path_str("/docker/*/**").matches(&path));
    assert!(KeymapPathPattern::from_path_str("/docker/**").matches(&path));
    assert!(!KeymapPathPattern::from_path_str("/mail/*").matches(&path));
}

#[test]
fn key_sequence_prefix_matches_partial_input() {
    let keyseq = KeySequence::from("gg");
    let g = KeyEvent::new(KeyCode::Char('g'), KeyModifiers::empty());
    assert!(keyseq.prefix_match(&[g]));
    assert!(!keyseq.all_match(&[g]));
    assert!(keyseq.all_match(&[g, g]));
    assert!(!keyseq.prefix_match(&[KeyEvent::new(KeyCode::Char('h'), KeyModifiers::empty())]));
}

#[test]
fn key_sequence_parse_accepts_known_forms() {
    assert!(KeySequence::can_parse("<C-x>"));
    assert!(KeySequence::can_parse("dd"));
    assert!(KeySequence::from("<C-x>").same_keys(&KeySequence::from("ctrl-x")));
}

#[test]
fn globstar_alone_matches_root() {
    let pattern = KeymapPathPattern::from_path_str("/**");
    assert!(pattern.matches(&[]));
    assert!(pattern.matches(&["a".to_string()]));
}
