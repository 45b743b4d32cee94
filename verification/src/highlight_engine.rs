//! The parts of syntect that highlighting rests on: the syntax definitions and themes that
//! come with it, the lookup of a syntax, and the highlighting of successive lines.
//!
//! The types here have private fields and are made only by the functions of this module,
//! so a `Syntax` always comes from the default definitions, a `NamedTheme` is the default
//! theme of its name, and a `LineHighlighter` has been fed exactly the lines it records.

use vstd::prelude::*;
use syntect::easy::HighlightLines;
use syntect::highlighting::{Theme, ThemeSet};
use syntect::parsing::{SyntaxReference, SyntaxSet};
use crate::highlight::{concat, RegionStyle, SynColor};

verus! {

#[verifier::external_type_specification]
#[verifier::external_body]
pub struct ExSyntaxSet(SyntaxSet);

#[verifier::external_type_specification]
#[verifier::external_body]
pub struct ExSyntaxReference(SyntaxReference);

#[verifier::external_type_specification]
#[verifier::external_body]
pub struct ExTheme(Theme);

#[verifier::external_type_specification]
#[verifier::external_body]
pub struct ExHighlightLines<'a>(HighlightLines<'a>);

/// The syntax definitions that come with syntect.
pub struct DefaultSyntaxes {
    set: SyntaxSet,
}

/// A syntax of the default definitions, with its name.
pub struct Syntax<'a> {
    syntax: &'a SyntaxReference,
    name: String,
}

impl<'a> Syntax<'a> {
    pub closed spec fn name(&self) -> Seq<char> {
        self.name@
    }
}

/// A theme that comes with syntect, with its name.
pub struct NamedTheme {
    theme: Theme,
    name: String,
}

impl NamedTheme {
    pub closed spec fn name(&self) -> Seq<char> {
        self.name@
    }
}

/// A highlighter of successive lines of code, with the names of its theme and syntax and
/// the lines it has been fed so far.
pub struct LineHighlighter<'a> {
    lines: HighlightLines<'a>,
    theme: Ghost<Seq<char>>,
    syntax: Ghost<Seq<char>>,
    seen: Ghost<Seq<Seq<char>>>,
}

impl<'a> LineHighlighter<'a> {
    pub closed spec fn theme(&self) -> Seq<char> {
        self.theme@
    }

    pub closed spec fn syntax(&self) -> Seq<char> {
        self.syntax@
    }

    pub closed spec fn seen(&self) -> Seq<Seq<char>> {
        self.seen@
    }
}

/// A highlighted region with its text as a sequence.
pub open spec fn regions_view(regions: Seq<(RegionStyle, String)>) -> Seq<(RegionStyle, Seq<char>)> {
    regions.map_values(|p: (RegionStyle, String)| (p.0, p.1@))
}

/// The texts of highlighted regions.
pub open spec fn region_texts(regions: Seq<(RegionStyle, String)>) -> Seq<Seq<char>> {
    regions.map_values(|p: (RegionStyle, String)| p.1@)
}

/// `SyntaxSet::load_defaults_newlines`: the syntax definitions that come with syntect, for
/// lines that keep their newline.
#[verifier::external_body]
pub(crate) fn default_syntaxes() -> DefaultSyntaxes {
    DefaultSyntaxes { set: SyntaxSet::load_defaults_newlines() }
}

/// Whether the themes that come with syntect (`ThemeSet::load_defaults`) hold one called
/// `name`.
pub uninterp spec fn default_theme_exists(name: Seq<char>) -> bool;

/// The names that syntect documents among its themes.
pub open spec fn documented_theme(name: Seq<char>) -> bool {
    ||| name == "base16-ocean.dark"@
    ||| name == "base16-eighties.dark"@
    ||| name == "base16-mocha.dark"@
    ||| name == "base16-ocean.light"@
    ||| name == "InspiredGitHub"@
    ||| name == "Solarized (dark)"@
    ||| name == "Solarized (light)"@
}

/// `ThemeSet::load_defaults`, and from its themes the one called `name`, if there is one.
/// The contract names whether there is one (`default_theme_exists`) and, as syntect's
/// documentation of `load_defaults` lists them, that the documented names are there.
#[verifier::external_body]
pub(crate) fn default_theme(name: &str) -> (r: Option<NamedTheme>)
    ensures
        r is Some == default_theme_exists(name@),
        documented_theme(name@) ==> r is Some,
        r matches Some(t) ==> t.name() == name@,
{
    match ThemeSet::load_defaults().themes.remove(name) {
        Some(theme) => Some(NamedTheme { theme, name: name.to_string() }),
        None => None,
    }
}

/// The name of the syntax that the default definitions find for files with this extension
/// (`SyntaxSet::find_syntax_by_extension`), if any.
pub uninterp spec fn extension_syntax(extension: Seq<char>) -> Option<Seq<char>>;

/// The name of the syntax that the default definitions find for a token, an extension or a
/// name (`SyntaxSet::find_syntax_by_token`), if any.
pub uninterp spec fn token_syntax(token: Seq<char>) -> Option<Seq<char>>;

/// `SyntaxSet::find_syntax_by_extension`: the syntax for files with this extension, if
/// any; which one is named by `extension_syntax`.
#[verifier::external_body]
pub(crate) fn syntax_by_extension<'a>(set: &'a DefaultSyntaxes, extension: &str) -> (r: Option<Syntax<'a>>)
    ensures
        match r {
            Some(s) => extension_syntax(extension@) == Some(s.name()),
            None => extension_syntax(extension@) is None,
        },
{
    match set.set.find_syntax_by_extension(extension) {
        Some(syntax) => Some(Syntax { syntax, name: syntax.name.clone() }),
        None => None,
    }
}

/// `SyntaxSet::find_syntax_by_token`: the syntax with this extension or name, if any;
/// which one is named by `token_syntax`.
#[verifier::external_body]
pub(crate) fn syntax_by_token<'a>(set: &'a DefaultSyntaxes, token: &str) -> (r: Option<Syntax<'a>>)
    ensures
        match r {
            Some(s) => token_syntax(token@) == Some(s.name()),
            None => token_syntax(token@) is None,
        },
{
    match set.set.find_syntax_by_token(token) {
        Some(syntax) => Some(Syntax { syntax, name: syntax.name.clone() }),
        None => None,
    }
}

/// `SyntaxSet::find_syntax_plain_text`: the syntax called "Plain Text", which the default
/// definitions hold (the method looks it up by that name and panics without it).
#[verifier::external_body]
pub(crate) fn plain_text_syntax<'a>(set: &'a DefaultSyntaxes) -> (r: Syntax<'a>)
    ensures
        r.name() == "Plain Text"@,
{
    let syntax = set.set.find_syntax_plain_text();
    Syntax { syntax, name: syntax.name.clone() }
}

/// `HighlightLines::new`: a highlighter of successive lines in `syntax` with `theme`, fed
/// no line yet.
#[verifier::external_body]
pub(crate) fn start_lines<'a>(syntax: &Syntax, theme: &'a NamedTheme) -> (r: LineHighlighter<'a>)
    ensures
        r.theme() == theme.name(),
        r.syntax() == syntax.name(),
        r.seen() == Seq::<Seq<char>>::empty(),
{
    LineHighlighter {
        lines: HighlightLines::new(syntax.syntax, &theme.theme),
        theme: Ghost(theme.name@),
        syntax: Ghost(syntax.name@),
        seen: Ghost(Seq::empty()),
    }
}

/// What highlighting `line` gives, in the default syntax called `syntax` with the default
/// theme called `theme`, after the lines `earlier`: the styled regions of the line (each
/// region's foreground color and font style bits, read from syntect's `Style`), or the
/// message of the error.
pub uninterp spec fn highlighted_line(
    theme: Seq<char>,
    syntax: Seq<char>,
    earlier: Seq<Seq<char>>,
    line: Seq<char>,
) -> Result<Seq<(RegionStyle, Seq<char>)>, Seq<char>>;

/// `HighlightLines::highlight_line`: the styled regions of the next line, or the error's
/// message, as `highlighted_line` names them. As syntect documents, the texts of the regions
/// join to the line.
#[verifier::external_body]
pub(crate) fn highlight_line(h: &mut LineHighlighter, line: &str, set: &DefaultSyntaxes) -> (r: Result<Vec<(RegionStyle, String)>, String>)
    ensures
        final(h).theme() == old(h).theme(),
        final(h).syntax() == old(h).syntax(),
        final(h).seen() == old(h).seen().push(line@),
        match r {
            Ok(regions) => highlighted_line(old(h).theme(), old(h).syntax(), old(h).seen(), line@) == Ok::<
                Seq<(RegionStyle, Seq<char>)>,
                Seq<char>,
            >(regions_view(regions@)),
            Err(e) => highlighted_line(old(h).theme(), old(h).syntax(), old(h).seen(), line@) == Err::<
                Seq<(RegionStyle, Seq<char>)>,
                Seq<char>,
            >(e@),
        },
        r matches Ok(regions) ==> concat(region_texts(regions@)) == line@,
{
    match h.lines.highlight_line(line, &set.set) {
        Ok(regions) => Ok(regions.into_iter().map(|(style, text)| {
            let c = style.foreground;
            let color = SynColor { r: c.r, g: c.g, b: c.b, a: c.a };
            (RegionStyle { foreground: color, font_bits: style.font_style.bits() }, text.to_string())
        }).collect()),
        Err(e) => Err(e.to_string()),
    }
}

} // verus!
