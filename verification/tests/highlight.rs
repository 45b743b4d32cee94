use lazydeck::highlight::{
    split_lines_with_endings, spans_of_regions, syntect_color_to_ratatui, syntect_font_style_to_modifier,
    CodeHighlighter, RegionStyle, SynColor, TermColor, TextModifiers,
};

fn highlight(code: &str, language: &str) -> Result<Vec<Vec<lazydeck::highlight::StyledSpan>>, String> {
    CodeHighlighter::with_theme("base16-ocean.dark").expect("default theme").highlight(code, language)
}

fn joined(line: &[lazydeck::highlight::StyledSpan]) -> String {
    line.iter().map(|s| s.text.as_str()).collect()
}

#[test]
fn test_highlight_javascript() {
    let code = r#"
function hello(name) {
    console.log("Hello, " + name);
    return true;
}
"#;
    let result = highlight(code, "javascript");
    assert!(result.is_ok());
}

#[test]
fn test_highlight_rust() {
    let code = r#"
fn main() {
    println!("Hello, world!");
}
"#;
    let result = highlight(code, "rust");
    assert!(result.is_ok());
}

#[test]
fn test_highlight_unknown_language() {
    let code = "some code";
    let result = highlight(code, "unknownlanguage");
    assert!(result.is_ok());
}

#[test]
fn highlighted_lines_keep_the_text_with_tabs_expanded() {
    let lines = highlight("fn main() {\n\tlet x = 1;\n}", "rs").unwrap();
    assert_eq!(lines.len(), 3);
    assert_eq!(joined(&lines[0]), "fn main() {\n");
    assert_eq!(joined(&lines[1]), "  let x = 1;\n");
    assert_eq!(joined(&lines[2]), "}");
    assert!(lines[0].iter().any(|s| s.fg.is_some()));
}

#[test]
fn palette_colors_map_to_terminal_colors() {
    assert_eq!(syntect_color_to_ratatui(SynColor { r: 0, g: 9, b: 9, a: 0 }), Some(TermColor::Black));
    assert_eq!(syntect_color_to_ratatui(SynColor { r: 3, g: 0, b: 0, a: 0 }), Some(TermColor::Yellow));
    assert_eq!(syntect_color_to_ratatui(SynColor { r: 7, g: 0, b: 0, a: 0 }), Some(TermColor::White));
    assert_eq!(syntect_color_to_ratatui(SynColor { r: 200, g: 0, b: 0, a: 0 }), Some(TermColor::Indexed(200)));
    assert_eq!(syntect_color_to_ratatui(SynColor { r: 1, g: 2, b: 3, a: 1 }), None);
    assert_eq!(syntect_color_to_ratatui(SynColor { r: 1, g: 2, b: 3, a: 255 }), Some(TermColor::Rgb(1, 2, 3)));
}

#[test]
fn font_style_bits_map_to_modifiers() {
    assert_eq!(syntect_font_style_to_modifier(0), TextModifiers { bold: false, italic: false, underlined: false });
    assert_eq!(syntect_font_style_to_modifier(1), TextModifiers { bold: true, italic: false, underlined: false });
    assert_eq!(syntect_font_style_to_modifier(2), TextModifiers { bold: false, italic: false, underlined: true });
    assert_eq!(syntect_font_style_to_modifier(4), TextModifiers { bold: false, italic: true, underlined: false });
    assert_eq!(syntect_font_style_to_modifier(7), TextModifiers { bold: true, italic: true, underlined: true });
}

#[test]
fn regions_become_spans_in_order() {
    let style = RegionStyle { foreground: SynColor { r: 10, g: 20, b: 30, a: 255 }, font_bits: 1 };
    let spans = spans_of_regions(&vec![(style, "a\tb".to_string()), (style, "c".to_string())]);
    assert_eq!(spans.len(), 2);
    assert_eq!(spans[0].text, "a  b");
    assert_eq!(spans[0].fg, Some(TermColor::Rgb(10, 20, 30)));
    assert!(spans[0].modifiers.bold);
    assert_eq!(spans[1].text, "c");
}

#[test]
fn lines_keep_their_newlines() {
    assert_eq!(split_lines_with_endings("foo\nbar\nbaz"), vec!["foo\n", "bar\n", "baz"]);
    assert_eq!(split_lines_with_endings("a\n\nb\n"), vec!["a\n", "\n", "b\n"]);
    assert!(split_lines_with_endings("").is_empty());
    let text = "x\ny\n\nz";
    assert_eq!(split_lines_with_endings(text).concat(), text);
}

#[test]
fn documented_themes_are_there_and_others_are_not() {
    for name in [
        "base16-ocean.dark",
        "base16-eighties.dark",
        "base16-mocha.dark",
        "base16-ocean.light",
        "InspiredGitHub",
        "Solarized (dark)",
        "Solarized (light)",
    ] {
        assert!(CodeHighlighter::with_theme(name).is_some(), "{}", name);
    }
    assert!(CodeHighlighter::with_theme("no such theme").is_none());
}

#[test]
fn default_syntax_names_are_distinct() {
    let set = syntect::parsing::SyntaxSet::load_defaults_newlines();
    let mut names: Vec<&str> = set.syntaxes().iter().map(|s| s.name.as_str()).collect();
    let count = names.len();
    names.sort();
    names.dedup();
    assert_eq!(names.len(), count);
    assert!(set.find_syntax_by_name("Plain Text").is_some());
}

#[test]
fn unknown_languages_are_plain_text() {
    let lines = highlight("a\tb\nc", "no such language").unwrap();
    assert_eq!(lines.len(), 2);
    assert_eq!(joined(&lines[0]), "a  b\n");
    assert_eq!(joined(&lines[1]), "c");
}
