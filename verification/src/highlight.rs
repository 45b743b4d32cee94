//! Syntax highlighting of code for previews: syntect splits each line into styled regions,
//! and each region becomes a span with a terminal color and text modifiers.

use vstd::prelude::*;
use crate::highlight_engine::{
    default_syntaxes, default_theme, documented_theme, default_theme_exists, extension_syntax, highlight_line,
    highlighted_line, plain_text_syntax, region_texts, start_lines, syntax_by_extension, syntax_by_token,
    token_syntax, DefaultSyntaxes, NamedTheme,
};
use crate::style::{strip_ending, without_ending};
use crate::text::{from_chars, to_chars};

verus! {

broadcast use vstd::seq_lib::group_seq_properties;

/// A color of a highlighting theme. An alpha of 0 marks a color of the terminal's palette
/// (its index in `r`), an alpha of 1 the terminal's default color; any other alpha an RGB
/// color.
#[derive(Debug, Clone, Copy, PartialEq, Eq, Structural)]
pub struct SynColor {
    pub r: u8,
    pub g: u8,
    pub b: u8,
    pub a: u8,
}

/// The style of a highlighted region: its foreground color and its font style bits (bold 1,
/// underline 2, italic 4).
#[derive(Debug, Clone, Copy, PartialEq, Eq, Structural)]
pub struct RegionStyle {
    pub foreground: SynColor,
    pub font_bits: u8,
}

/// A terminal color.
#[derive(Debug, Clone, Copy, PartialEq, Eq, Structural)]
pub enum TermColor {
    Black,
    Red,
    Green,
    Yellow,
    Blue,
    Magenta,
    Cyan,
    White,
    Indexed(u8),
    Rgb(u8, u8, u8),
}

/// Text modifiers of a span.
#[derive(Debug, Clone, Copy, PartialEq, Eq, Structural)]
pub struct TextModifiers {
    pub bold: bool,
    pub italic: bool,
    pub underlined: bool,
}

/// A piece of highlighted text; no color means the terminal's default.
pub struct StyledSpan {
    pub text: String,
    pub fg: Option<TermColor>,
    pub modifiers: TextModifiers,
}

/// The terminal color of a theme color.
pub open spec fn term_color(c: SynColor) -> Option<TermColor> {
    if c.a == 0 {
        Some(
            if c.r == 0 {
                TermColor::Black
            } else if c.r == 1 {
                TermColor::Red
            } else if c.r == 2 {
                TermColor::Green
            } else if c.r == 3 {
                TermColor::Yellow
            } else if c.r == 4 {
                TermColor::Blue
            } else if c.r == 5 {
                TermColor::Magenta
            } else if c.r == 6 {
                TermColor::Cyan
            } else if c.r == 7 {
                TermColor::White
            } else {
                TermColor::Indexed(c.r)
            },
        )
    } else if c.a == 1 {
        None
    } else {
        Some(TermColor::Rgb(c.r, c.g, c.b))
    }
}

/// The modifiers of font style bits.
pub open spec fn modifiers_of(bits: u8) -> TextModifiers {
    TextModifiers { bold: bits & 1 == 1, italic: bits & 4 == 4, underlined: bits & 2 == 2 }
}

/// Converts a theme color to a terminal color (see `term_color`).
pub fn syntect_color_to_ratatui(color: SynColor) -> (r: Option<TermColor>)
    ensures
        r == term_color(color),
{
    if color.a == 0 {
        Some(
            match color.r {
                0 => TermColor::Black,
                1 => TermColor::Red,
                2 => TermColor::Green,
                3 => TermColor::Yellow,
                4 => TermColor::Blue,
                5 => TermColor::Magenta,
                6 => TermColor::Cyan,
                7 => TermColor::White,
                n => TermColor::Indexed(n),
            },
        )
    } else if color.a == 1 {
        None
    } else {
        Some(TermColor::Rgb(color.r, color.g, color.b))
    }
}

/// Converts font style bits to text modifiers.
pub fn syntect_font_style_to_modifier(bits: u8) -> (m: TextModifiers)
    ensures
        m == modifiers_of(bits),
{
    TextModifiers { bold: bits & 1 == 1, italic: bits & 4 == 4, underlined: bits & 2 == 2 }
}

/// The text with each tab replaced by two spaces.
pub open spec fn expand_tabs(t: Seq<char>) -> Seq<char>
    decreases t.len(),
{
    if t.len() == 0 {
        Seq::empty()
    } else {
        expand_tabs(t.drop_last()) + if t.last() == '\t' {
            seq![' ', ' ']
        } else {
            seq![t.last()]
        }
    }
}

fn expand_tabs_of(text: &str) -> (r: String)
    ensures
        r@ == expand_tabs(text@),
{
    let cs = to_chars(text);
    let mut out: Vec<char> = Vec::new();
    let mut i: usize = 0;
    while i < cs.len()
        invariant
            i <= cs@.len(),
            cs@ == text@,
            out@ == expand_tabs(cs@.take(i as int)),
        decreases cs@.len() - i,
    {
        if cs[i] == '\t' {
            out.push(' ');
            out.push(' ');
        } else {
            out.push(cs[i]);
        }
        proof {
            assert(cs@.take(i + 1).drop_last() =~= cs@.take(i as int));
        }
        i += 1;
    }
    assert(cs@.take(cs@.len() as int) =~= cs@);
    from_chars(out.as_slice())
}

/// `s` is the span of a region with `style` and `text`.
pub open spec fn span_of_region(s: StyledSpan, style: RegionStyle, text: Seq<char>) -> bool {
    &&& s.text@ == expand_tabs(text)
    &&& s.fg == term_color(style.foreground)
    &&& s.modifiers == modifiers_of(style.font_bits)
}

/// The spans of a line's highlighted regions, one for each, in order.
pub fn spans_of_regions(regions: &Vec<(RegionStyle, String)>) -> (r: Vec<StyledSpan>)
    ensures
        r@.len() == regions@.len(),
        forall|i: int| 0 <= i < r@.len() ==> span_of_region(#[trigger] r@[i], regions@[i].0, regions@[i].1@),
{
    let mut out: Vec<StyledSpan> = Vec::new();
    let mut i: usize = 0;
    while i < regions.len()
        invariant
            i <= regions@.len(),
            out@.len() == i,
            forall|k: int| 0 <= k < i ==> span_of_region(#[trigger] out@[k], regions@[k].0, regions@[k].1@),
        decreases regions@.len() - i,
    {
        let (style, text) = &regions[i];
        out.push(
            StyledSpan {
                text: expand_tabs_of(text.as_str()),
                fg: syntect_color_to_ratatui(style.foreground),
                modifiers: syntect_font_style_to_modifier(style.font_bits),
            },
        );
        i += 1;
    }
    out
}

/// The lines of `cur` followed by `s`, where `cur` is the start of a line: each line ends
/// after its newline, the last one possibly without.
pub open spec fn lines_from(s: Seq<char>, cur: Seq<char>) -> Seq<Seq<char>>
    decreases s.len(),
{
    if s.len() == 0 {
        if cur.len() == 0 {
            Seq::empty()
        } else {
            seq![cur]
        }
    } else if s[0] == '\n' {
        seq![cur.push('\n')] + lines_from(s.drop_first(), Seq::empty())
    } else {
        lines_from(s.drop_first(), cur.push(s[0]))
    }
}

/// The lines of a text, each with its newline.
pub open spec fn lines_with_endings(s: Seq<char>) -> Seq<Seq<char>> {
    lines_from(s, Seq::empty())
}

/// The concatenation of the pieces.
pub open spec fn concat(p: Seq<Seq<char>>) -> Seq<char>
    decreases p.len(),
{
    if p.len() == 0 {
        Seq::empty()
    } else {
        p[0] + concat(p.drop_first())
    }
}

proof fn lemma_lines_from(s: Seq<char>, cur: Seq<char>)
    ensures
        concat(lines_from(s, cur)) == cur + s,
        forall|i: int| 0 <= i < lines_from(s, cur).len() ==> #[trigger] lines_from(s, cur)[i].len() > 0,
    decreases s.len(),
{
    if s.len() == 0 {
        if cur.len() > 0 {
            assert(seq![cur].drop_first() =~= Seq::<Seq<char>>::empty());
            assert(concat(Seq::<Seq<char>>::empty()) =~= Seq::<char>::empty());
            assert(concat(seq![cur]) == seq![cur][0] + concat(seq![cur].drop_first()));
            assert(concat(seq![cur]) =~= cur + Seq::<char>::empty());
        }
        assert(cur + s =~= cur);
    } else if s[0] == '\n' {
        let rest = lines_from(s.drop_first(), Seq::empty());
        lemma_lines_from(s.drop_first(), Seq::empty());
        let all = seq![cur.push('\n')] + rest;
        assert(all.drop_first() =~= rest);
        assert(Seq::<char>::empty() + s.drop_first() =~= s.drop_first());
        assert(cur.push('\n') + s.drop_first() =~= cur + s);
    } else {
        lemma_lines_from(s.drop_first(), cur.push(s[0]));
        assert(cur.push(s[0]) + s.drop_first() =~= cur + s);
    }
}

/// Joining the lines of a text gives the text back, and no line is empty.
pub proof fn law_lines_rejoin(s: Seq<char>)
    ensures
        concat(lines_with_endings(s)) == s,
        forall|i: int| 0 <= i < lines_with_endings(s).len() ==> #[trigger] lines_with_endings(s)[i].len() > 0,
{
    lemma_lines_from(s, Seq::empty());
    assert(Seq::<char>::empty() + s =~= s);
}

/// Splits a text into lines, each with its newline (as syntect's `LinesWithEndings`).
pub fn split_lines_with_endings(text: &str) -> (r: Vec<String>)
    ensures
        r@.len() == lines_with_endings(text@).len(),
        forall|i: int| 0 <= i < r@.len() ==> #[trigger] r@[i]@ == lines_with_endings(text@)[i],
{
    let cs = to_chars(text);
    let mut out: Vec<String> = Vec::new();
    let mut cur: Vec<char> = Vec::new();
    let mut i: usize = 0;
    while i < cs.len()
        invariant
            i <= cs@.len(),
            cs@ == text@,
            out@.map_values(|l: String| l@) + lines_from(cs@.skip(i as int), cur@) == lines_with_endings(text@),
        decreases cs@.len() - i,
    {
        let c = cs[i];
        let ghost before = out@.map_values(|l: String| l@);
        proof {
            assert(cs@.skip(i as int).drop_first() =~= cs@.skip(i + 1));
            assert(cs@.skip(i as int)[0] == c);
        }
        cur.push(c);
        if c == '\n' {
            let line = from_chars(cur.as_slice());
            out.push(line);
            proof {
                assert(out@.map_values(|l: String| l@) =~= before.push(cur@));
                assert(before + (seq![cur@] + lines_from(cs@.skip(i + 1), Seq::empty())) =~= before.push(cur@)
                    + lines_from(cs@.skip(i + 1), Seq::empty()));
            }
            cur = Vec::new();
            proof {
                assert(cur@ =~= Seq::<char>::empty());
            }
        }
        i += 1;
    }
    if cur.len() > 0 {
        let ghost before = out@.map_values(|l: String| l@);
        out.push(from_chars(cur.as_slice()));
        proof {
            assert(cs@.skip(i as int) =~= Seq::<char>::empty());
            assert(out@.map_values(|l: String| l@) =~= before + seq![cur@]);
        }
    } else {
        proof {
            assert(cs@.skip(i as int) =~= Seq::<char>::empty());
            assert(out@.map_values(|l: String| l@) + Seq::<Seq<char>>::empty() =~= out@.map_values(
                |l: String| l@,
            ));
        }
    }
    proof {
        assert forall|k: int| 0 <= k < out@.len() implies #[trigger] out@[k]@ == lines_with_endings(text@)[k] by {
            assert(out@.map_values(|l: String| l@)[k] == out@[k]@);
        }
    }
    out
}

/// Expanding the tabs of a concatenation expands those of each piece.
proof fn lemma_expand_tabs_concat(a: Seq<char>, b: Seq<char>)
    ensures
        expand_tabs(a + b) == expand_tabs(a) + expand_tabs(b),
    decreases b.len(),
{
    if b.len() == 0 {
        assert(a + b =~= a);
        assert(expand_tabs(b) =~= Seq::<char>::empty());
        assert(expand_tabs(a) + expand_tabs(b) =~= expand_tabs(a));
    } else {
        lemma_expand_tabs_concat(a, b.drop_last());
        assert((a + b).drop_last() =~= a + b.drop_last());
        assert((a + b).last() == b.last());
    }
}

/// The texts of the spans.
pub open spec fn span_texts(spans: Seq<StyledSpan>) -> Seq<Seq<char>> {
    spans.map_values(|s: StyledSpan| s.text@)
}

proof fn lemma_spans_cover(spans: Seq<StyledSpan>, regions: Seq<(RegionStyle, String)>)
    requires
        spans.len() == regions.len(),
        forall|i: int| 0 <= i < spans.len() ==> span_of_region(#[trigger] spans[i], regions[i].0, regions[i].1@),
    ensures
        concat(span_texts(spans)) == expand_tabs(concat(region_texts(regions))),
    decreases spans.len(),
{
    if spans.len() == 0 {
        assert(span_texts(spans) =~= Seq::<Seq<char>>::empty());
        assert(region_texts(regions) =~= Seq::<Seq<char>>::empty());
    } else {
        lemma_spans_cover(spans.drop_first(), regions.drop_first());
        assert(span_texts(spans).drop_first() =~= span_texts(spans.drop_first()));
        assert(region_texts(regions).drop_first() =~= region_texts(regions.drop_first()));
        assert(span_of_region(spans[0], regions[0].0, regions[0].1@));
        lemma_expand_tabs_concat(regions[0].1@, concat(region_texts(regions.drop_first())));
    }
}

/// No text modifier.
pub open spec fn plain() -> TextModifiers {
    TextModifiers { bold: false, italic: false, underlined: false }
}

/// The lines of an error message as a terminal line holds them (`str::lines`): split at
/// the line endings, which are dropped.
pub open spec fn message_lines(m: Seq<char>) -> Seq<Seq<char>> {
    lines_with_endings(m).map_values(|l: Seq<char>| without_ending(l))
}

/// `spans` show what highlighting a line gave: a span for each region, in order, or,
/// where the highlighter failed, an unstyled span for each line of its message.
pub open spec fn shows_result(spans: Seq<StyledSpan>, res: Result<Seq<(RegionStyle, Seq<char>)>, Seq<char>>) -> bool {
    match res {
        Ok(regions) => {
            &&& spans.len() == regions.len()
            &&& forall|i: int| 0 <= i < spans.len() ==> span_of_region(#[trigger] spans[i], regions[i].0, regions[i].1)
        },
        Err(message) => {
            &&& spans.len() == message_lines(message).len()
            &&& forall|i: int|
                0 <= i < spans.len() ==> {
                    &&& (#[trigger] spans[i]).text@ == message_lines(message)[i]
                    &&& spans[i].fg is None
                    &&& spans[i].modifiers == plain()
                }
        },
    }
}

/// The syntax that code in `language` is highlighted in: the one for files with that
/// extension, else the one with that extension or name, else plain text.
pub open spec fn chosen_syntax(language: Seq<char>) -> Seq<char> {
    match extension_syntax(language) {
        Some(name) => name,
        None => match token_syntax(language) {
            Some(name) => name,
            None => "Plain Text"@,
        },
    }
}

/// What highlighting the `i`th of `lines` gives, after the lines before it.
pub open spec fn highlighted_at(theme: Seq<char>, syntax: Seq<char>, lines: Seq<Seq<char>>, i: int) -> Result<
    Seq<(RegionStyle, Seq<char>)>,
    Seq<char>,
> {
    highlighted_line(theme, syntax, lines.take(i), lines[i])
}

/// The unstyled spans of the lines of an error message.
fn message_spans(message: &str) -> (r: Vec<StyledSpan>)
    ensures
        shows_result(r@, Err(message@)),
{
    let lines = split_lines_with_endings(message);
    let mut out: Vec<StyledSpan> = Vec::new();
    let mut i: usize = 0;
    while i < lines.len()
        invariant
            i <= lines@.len(),
            lines@.len() == lines_with_endings(message@).len(),
            forall|k: int| 0 <= k < lines@.len() ==> #[trigger] lines@[k]@ == lines_with_endings(message@)[k],
            out@.len() == i,
            forall|k: int|
                0 <= k < i ==> {
                    &&& (#[trigger] out@[k]).text@ == message_lines(message@)[k]
                    &&& out@[k].fg is None
                    &&& out@[k].modifiers == plain()
                },
        decreases lines@.len() - i,
    {
        let text = strip_ending(lines[i].as_str());
        out.push(StyledSpan { text, fg: None, modifiers: TextModifiers { bold: false, italic: false, underlined: false } });
        i += 1;
    }
    out
}

/// The syntax definitions and the color theme that code is highlighted with.
pub struct CodeHighlighter {
    syntaxes: DefaultSyntaxes,
    theme: NamedTheme,
}

impl CodeHighlighter {
    /// The name of the theme.
    pub closed spec fn theme_name(&self) -> Seq<char> {
        self.theme.name()
    }

    /// The syntaxes that come with syntect and its theme called `theme`; nothing when there
    /// is no such theme (see `default_theme_exists`; the documented themes are there).
    pub fn with_theme(theme: &str) -> (r: Option<CodeHighlighter>)
        ensures
            r is Some == default_theme_exists(theme@),
            documented_theme(theme@) ==> r is Some,
            r matches Some(h) ==> h.theme_name() == theme@,
    {
        match default_theme(theme) {
            Some(theme) => Some(CodeHighlighter { syntaxes: default_syntaxes(), theme }),
            None => None,
        }
    }

    /// Highlights `code` as `language`: in the syntax for files with that extension, else
    /// the one with that extension or name, else as plain text (see `chosen_syntax`). Each
    /// line of the code (see `lines_with_endings`) gives one line of spans, made from what
    /// highlighting it after the lines before it gives (see `shows_result`); where that
    /// succeeds, the texts of the spans join to the line with its tabs expanded.
    pub fn highlight(&self, code: &str, language: &str) -> (r: Result<Vec<Vec<StyledSpan>>, String>)
        ensures
            r is Ok,
            r matches Ok(lines) ==> {
                &&& lines@.len() == lines_with_endings(code@).len()
                &&& forall|i: int|
                    0 <= i < lines@.len() ==> shows_result(
                        #[trigger] lines@[i]@,
                        highlighted_at(self.theme_name(), chosen_syntax(language@), lines_with_endings(code@), i),
                    )
                &&& forall|i: int|
                    0 <= i < lines@.len() && highlighted_at(
                        self.theme_name(),
                        chosen_syntax(language@),
                        lines_with_endings(code@),
                        i,
                    ) is Ok ==> concat(span_texts(#[trigger] lines@[i]@)) == expand_tabs(lines_with_endings(code@)[i])
            },
    {
        let syntax = match syntax_by_extension(&self.syntaxes, language) {
            Some(s) => s,
            None => match syntax_by_token(&self.syntaxes, language) {
                Some(s) => s,
                None => plain_text_syntax(&self.syntaxes),
            },
        };
        let ghost theme = self.theme_name();
        let ghost chosen = chosen_syntax(language@);
        let ghost source_lines = lines_with_endings(code@);
        let mut state = start_lines(&syntax, &self.theme);
        let source = split_lines_with_endings(code);
        let mut out: Vec<Vec<StyledSpan>> = Vec::new();
        let mut i: usize = 0;
        while i < source.len()
            invariant
                i <= source@.len(),
                source@.len() == source_lines.len(),
                forall|k: int| 0 <= k < source@.len() ==> #[trigger] source@[k]@ == source_lines[k],
                state.theme() == theme,
                state.syntax() == chosen,
                state.seen() == source_lines.take(i as int),
                out@.len() == i,
                forall|k: int| 0 <= k < i ==> shows_result(#[trigger] out@[k]@, highlighted_at(theme, chosen, source_lines, k)),
                forall|k: int|
                    0 <= k < i && highlighted_at(theme, chosen, source_lines, k) is Ok ==> concat(
                        span_texts(#[trigger] out@[k]@),
                    ) == expand_tabs(source_lines[k]),
            decreases source@.len() - i,
        {
            let result = highlight_line(&mut state, source[i].as_str(), &self.syntaxes);
            let spans = match result {
                Ok(regions) => {
                    let spans = spans_of_regions(&regions);
                    proof {
                        lemma_spans_cover(spans@, regions@);
                    }
                    spans
                },
                Err(message) => message_spans(message.as_str()),
            };
            proof {
                assert(source_lines.take(i as int).push(source_lines[i as int]) =~= source_lines.take(i + 1));
            }
            out.push(spans);
            i += 1;
        }
        Ok(out)
    }
}

} // verus!
