//! Key events and key sequences: the notation used to bind keys (`"gg"`, `"<C-x>"`,
//! `"ctrl-d"`, `"<f5>"`) and the matching of typed keys against bindings.

use vstd::prelude::*;
use crate::text::{
    char_width_utf8, chars_eq, from_chars, is_ws, lemma_trim_len, lowercase, sub_chars, to_chars,
    to_lowercase, trim, trim_chars, utf8_width,
};

verus! {

broadcast use vstd::seq_lib::group_seq_properties;

/// Modifier keys held while a key was pressed.
#[derive(Debug, Clone, Copy, PartialEq, Eq, Structural)]
pub struct KeyModifiers {
    pub shift: bool,
    pub control: bool,
    pub alt: bool,
    pub super_key: bool,
    pub hyper: bool,
    pub meta: bool,
}

/// A key on the keyboard.
#[derive(Debug, Clone, Copy, PartialEq, Eq, Structural)]
pub enum KeyCode {
    Backspace,
    Enter,
    Left,
    Right,
    Up,
    Down,
    Home,
    End,
    PageUp,
    PageDown,
    Tab,
    BackTab,
    Delete,
    Insert,
    F(u8),
    Char(char),
    Null,
    Esc,
    /// Any key that key bindings cannot name.
    Other,
}

/// A key press: the key and the modifiers held with it.
#[derive(Debug, Clone, Copy, PartialEq, Eq, Structural)]
pub struct KeyEvent {
    pub code: KeyCode,
    pub modifiers: KeyModifiers,
}

impl KeyModifiers {
    pub open spec fn none() -> KeyModifiers {
        KeyModifiers {
            shift: false,
            control: false,
            alt: false,
            super_key: false,
            hyper: false,
            meta: false,
        }
    }

    pub open spec fn spec_union(self, o: KeyModifiers) -> KeyModifiers {
        KeyModifiers {
            shift: self.shift || o.shift,
            control: self.control || o.control,
            alt: self.alt || o.alt,
            super_key: self.super_key || o.super_key,
            hyper: self.hyper || o.hyper,
            meta: self.meta || o.meta,
        }
    }

    pub open spec fn spec_is_empty(self) -> bool {
        self == KeyModifiers::none()
    }

    /// No modifier held.
    pub fn empty() -> (m: KeyModifiers)
        ensures
            m == KeyModifiers::none(),
    {
        KeyModifiers {
            shift: false,
            control: false,
            alt: false,
            super_key: false,
            hyper: false,
            meta: false,
        }
    }

    /// Only Control held.
    pub fn ctrl() -> (m: KeyModifiers)
        ensures
            m == (KeyModifiers { control: true, ..KeyModifiers::none() }),
    {
        KeyModifiers { control: true, ..KeyModifiers::empty() }
    }

    /// Only Alt held.
    pub fn alt_only() -> (m: KeyModifiers)
        ensures
            m == (KeyModifiers { alt: true, ..KeyModifiers::none() }),
    {
        KeyModifiers { alt: true, ..KeyModifiers::empty() }
    }

    /// Only Shift held.
    pub fn shift_only() -> (m: KeyModifiers)
        ensures
            m == (KeyModifiers { shift: true, ..KeyModifiers::none() }),
    {
        KeyModifiers { shift: true, ..KeyModifiers::empty() }
    }

    /// True when no modifier is held.
    pub fn is_empty(&self) -> (b: bool)
        ensures
            b == self.spec_is_empty(),
    {
        !self.shift && !self.control && !self.alt && !self.super_key && !self.hyper && !self.meta
    }

    /// Every modifier of `other` is held in `self`.
    pub fn contains(&self, other: KeyModifiers) -> (b: bool)
        ensures
            b == ((other.shift ==> self.shift) && (other.control ==> self.control) && (other.alt
                ==> self.alt) && (other.super_key ==> self.super_key) && (other.hyper
                ==> self.hyper) && (other.meta ==> self.meta)),
    {
        (!other.shift || self.shift) && (!other.control || self.control) && (!other.alt
            || self.alt) && (!other.super_key || self.super_key) && (!other.hyper || self.hyper)
            && (!other.meta || self.meta)
    }
}

impl KeyEvent {
    pub fn new(code: KeyCode, modifiers: KeyModifiers) -> (e: KeyEvent)
        ensures
            e.code == code,
            e.modifiers == modifiers,
    {
        KeyEvent { code, modifiers }
    }
}

/// `s` starts with `p`, comparing ASCII letters without regard to case.
pub open spec fn has_prefix_ci(s: Seq<char>, p: Seq<char>) -> bool {
    s.len() >= p.len() && forall|i: int| 0 <= i < p.len() ==> ascii_lower(#[trigger] s[i]) == p[i]
}

/// `s` starts with `p` exactly.
pub open spec fn has_prefix(s: Seq<char>, p: Seq<char>) -> bool {
    s.len() >= p.len() && s.take(p.len() as int) == p
}

pub open spec fn ascii_lower(c: char) -> char {
    if 'A' <= c && c <= 'Z' {
        (((c as u32) + 32) as u8) as char
    } else {
        c
    }
}

pub open spec fn lit_ctrl() -> Seq<char> {
    seq!['c', 't', 'r', 'l', '-']
}

pub open spec fn lit_alt() -> Seq<char> {
    seq!['a', 'l', 't', '-']
}

pub open spec fn lit_shift() -> Seq<char> {
    seq!['s', 'h', 'i', 'f', 't', '-']
}

pub open spec fn lit_c() -> Seq<char> {
    seq!['C', '-']
}

pub open spec fn lit_a() -> Seq<char> {
    seq!['A', '-']
}

pub open spec fn lit_s() -> Seq<char> {
    seq!['S', '-']
}

/// Which modifier prefix, if any, `s` starts with, and how many characters it spans.
/// Returns (length, 1 = control, 2 = alt, 3 = shift); length 0 means none.
pub open spec fn one_modifier(s: Seq<char>) -> (int, int) {
    if has_prefix_ci(s, lit_ctrl()) || has_prefix(s, lit_c()) {
        (if has_prefix(s, lit_c()) { 2int } else { 5int }, 1int)
    } else if has_prefix_ci(s, lit_alt()) || has_prefix(s, lit_a()) {
        (if has_prefix(s, lit_a()) { 2int } else { 4int }, 2int)
    } else if has_prefix_ci(s, lit_shift()) || has_prefix(s, lit_s()) {
        (if has_prefix(s, lit_s()) { 2int } else { 6int }, 3int)
    } else {
        (0int, 0int)
    }
}

pub open spec fn modifier_of(kind: int) -> KeyModifiers {
    if kind == 1 {
        KeyModifiers { control: true, ..KeyModifiers::none() }
    } else if kind == 2 {
        KeyModifiers { alt: true, ..KeyModifiers::none() }
    } else {
        KeyModifiers { shift: true, ..KeyModifiers::none() }
    }
}

/// The run of modifier prefixes (`ctrl-`, `C-`, `alt-`, `A-`, `shift-`, `S-`) at the start
/// of `s`: the number of characters they span and the modifiers they name.
pub open spec fn modifier_prefix(s: Seq<char>) -> (int, KeyModifiers)
    decreases s.len(),
{
    let (n, kind) = one_modifier(s);
    if n > 0 && n <= s.len() {
        let (k, m) = modifier_prefix(s.skip(n));
        (n + k, m.spec_union(modifier_of(kind)))
    } else {
        (0, KeyModifiers::none())
    }
}

pub proof fn lemma_modifier_prefix_bound(s: Seq<char>)
    ensures
        0 <= modifier_prefix(s).0 <= s.len(),
    decreases s.len(),
{
    let (n, kind) = one_modifier(s);
    if n > 0 && n <= s.len() {
        lemma_modifier_prefix_bound(s.skip(n));
    }
}

/// Names accepted inside angle brackets (after lowercasing).
pub open spec fn named_key(l: Seq<char>) -> Option<KeyCode> {
    if l == seq!['e', 's', 'c'] {
        Some(KeyCode::Esc)
    } else if l == seq!['e', 'n', 't', 'e', 'r'] {
        Some(KeyCode::Enter)
    } else if l == seq!['l', 'e', 'f', 't'] {
        Some(KeyCode::Left)
    } else if l == seq!['r', 'i', 'g', 'h', 't'] {
        Some(KeyCode::Right)
    } else if l == seq!['u', 'p'] {
        Some(KeyCode::Up)
    } else if l == seq!['d', 'o', 'w', 'n'] {
        Some(KeyCode::Down)
    } else if l == seq!['h', 'o', 'm', 'e'] {
        Some(KeyCode::Home)
    } else if l == seq!['e', 'n', 'd'] {
        Some(KeyCode::End)
    } else if l == seq!['p', 'a', 'g', 'e', 'u', 'p'] {
        Some(KeyCode::PageUp)
    } else if l == seq!['p', 'a', 'g', 'e', 'd', 'o', 'w', 'n'] {
        Some(KeyCode::PageDown)
    } else if l == seq!['b', 'a', 'c', 'k', 't', 'a', 'b'] {
        Some(KeyCode::BackTab)
    } else if l == seq!['b', 'a', 'c', 'k', 's', 'p', 'a', 'c', 'e'] {
        Some(KeyCode::Backspace)
    } else if l == seq!['d', 'e', 'l', 'e', 't', 'e'] {
        Some(KeyCode::Delete)
    } else if l == seq!['i', 'n', 's', 'e', 'r', 't'] {
        Some(KeyCode::Insert)
    } else if l == seq!['t', 'a', 'b'] {
        Some(KeyCode::Tab)
    } else if l == seq!['s', 'p', 'a', 'c', 'e'] {
        Some(KeyCode::Char(' '))
    } else if l.len() == 2 && l[0] == 'f' && '1' <= l[1] && l[1] <= '9' {
        Some(KeyCode::F(((l[1] as u32) - 48) as u8))
    } else if l == seq!['f', '1', '0'] {
        Some(KeyCode::F(10))
    } else if l == seq!['f', '1', '1'] {
        Some(KeyCode::F(11))
    } else if l == seq!['f', '1', '2'] {
        Some(KeyCode::F(12))
    } else {
        None
    }
}

/// A press of the character key `c`.
pub open spec fn char_event(c: char, m: KeyModifiers) -> KeyEvent {
    KeyEvent { code: KeyCode::Char(c), modifiers: m }
}

/// The single key event written inside angle brackets, e.g. `C-x` in `<C-x>`.
pub open spec fn angle_event(inner: Seq<char>) -> KeyEvent {
    let (p, m) = modifier_prefix(inner);
    let l = lowercase(inner.skip(p));
    match named_key(l) {
        Some(KeyCode::BackTab) => KeyEvent {
            code: KeyCode::BackTab,
            modifiers: m.spec_union(KeyModifiers { shift: true, ..KeyModifiers::none() }),
        },
        Some(code) => KeyEvent { code, modifiers: m },
        None => char_event(
            if l.len() > 0 {
                l[0]
            } else {
                ' '
            },
            m,
        ),
    }
}

/// The name written inside angle brackets after the modifiers, lowercased.
pub open spec fn key_name(inner: Seq<char>) -> Seq<char> {
    lowercase(inner.skip(modifier_prefix(inner).0))
}

/// The modifiers written inside angle brackets.
pub open spec fn key_mods(inner: Seq<char>) -> KeyModifiers {
    modifier_prefix(inner).1
}

/// A key named inside angle brackets, in any case and after any modifiers, is the key of
/// that name with those modifiers: `<left>` the left arrow, `<right>` the right arrow,
/// `<C-pageup>` page up with control, `<f5>` the fifth function key; `<backtab>` adds shift.
pub proof fn law_named_keys(inner: Seq<char>, n: u8)
    ensures
        key_name(inner) == seq!['e', 's', 'c'] ==> angle_event(inner) == (KeyEvent { code: KeyCode::Esc, modifiers: key_mods(inner) }),
        key_name(inner) == seq!['e', 'n', 't', 'e', 'r'] ==> angle_event(inner) == (KeyEvent { code: KeyCode::Enter, modifiers: key_mods(inner) }),
        key_name(inner) == seq!['l', 'e', 'f', 't'] ==> angle_event(inner) == (KeyEvent { code: KeyCode::Left, modifiers: key_mods(inner) }),
        key_name(inner) == seq!['r', 'i', 'g', 'h', 't'] ==> angle_event(inner) == (KeyEvent { code: KeyCode::Right, modifiers: key_mods(inner) }),
        key_name(inner) == seq!['u', 'p'] ==> angle_event(inner) == (KeyEvent { code: KeyCode::Up, modifiers: key_mods(inner) }),
        key_name(inner) == seq!['d', 'o', 'w', 'n'] ==> angle_event(inner) == (KeyEvent { code: KeyCode::Down, modifiers: key_mods(inner) }),
        key_name(inner) == seq!['h', 'o', 'm', 'e'] ==> angle_event(inner) == (KeyEvent { code: KeyCode::Home, modifiers: key_mods(inner) }),
        key_name(inner) == seq!['e', 'n', 'd'] ==> angle_event(inner) == (KeyEvent { code: KeyCode::End, modifiers: key_mods(inner) }),
        key_name(inner) == seq!['p', 'a', 'g', 'e', 'u', 'p'] ==> angle_event(inner) == (KeyEvent { code: KeyCode::PageUp, modifiers: key_mods(inner) }),
        key_name(inner) == seq!['p', 'a', 'g', 'e', 'd', 'o', 'w', 'n'] ==> angle_event(inner) == (KeyEvent { code: KeyCode::PageDown, modifiers: key_mods(inner) }),
        key_name(inner) == seq!['b', 'a', 'c', 'k', 's', 'p', 'a', 'c', 'e'] ==> angle_event(inner) == (KeyEvent { code: KeyCode::Backspace, modifiers: key_mods(inner) }),
        key_name(inner) == seq!['d', 'e', 'l', 'e', 't', 'e'] ==> angle_event(inner) == (KeyEvent { code: KeyCode::Delete, modifiers: key_mods(inner) }),
        key_name(inner) == seq!['i', 'n', 's', 'e', 'r', 't'] ==> angle_event(inner) == (KeyEvent { code: KeyCode::Insert, modifiers: key_mods(inner) }),
        key_name(inner) == seq!['t', 'a', 'b'] ==> angle_event(inner) == (KeyEvent { code: KeyCode::Tab, modifiers: key_mods(inner) }),
        key_name(inner) == seq!['s', 'p', 'a', 'c', 'e'] ==> angle_event(inner) == (KeyEvent { code: KeyCode::Char(' '), modifiers: key_mods(inner) }),
        key_name(inner) == seq!['f', '1', '0'] ==> angle_event(inner) == (KeyEvent { code: KeyCode::F(10), modifiers: key_mods(inner) }),
        key_name(inner) == seq!['f', '1', '1'] ==> angle_event(inner) == (KeyEvent { code: KeyCode::F(11), modifiers: key_mods(inner) }),
        key_name(inner) == seq!['f', '1', '2'] ==> angle_event(inner) == (KeyEvent { code: KeyCode::F(12), modifiers: key_mods(inner) }),
        key_name(inner) == seq!['b', 'a', 'c', 'k', 't', 'a', 'b'] ==> angle_event(inner) == (KeyEvent {
            code: KeyCode::BackTab,
            modifiers: key_mods(inner).spec_union((KeyModifiers { shift: true, ..KeyModifiers::none() })),
        }),
        1 <= n <= 9 && key_name(inner) == seq!['f', (('0' as u8) + n) as char] ==> angle_event(inner) == (KeyEvent {
            code: KeyCode::F(n),
            modifiers: key_mods(inner),
        }),
{
    if 1 <= n <= 9 && key_name(inner) == seq!['f', (('0' as u8) + n) as char] {
        let c = (('0' as u8) + n) as char;
        assert(key_name(inner)[1] == c);
        assert(((c as u32) - 48) as u8 == n);
    }
}

/// Position of the first `c` in `s`.
pub open spec fn index_of_char(s: Seq<char>, c: char) -> Option<int>
    decreases s.len(),
{
    if s.len() == 0 {
        None
    } else if s[0] == c {
        Some(0)
    } else {
        match index_of_char(s.drop_first(), c) {
            Some(i) => Some(i + 1),
            None => None,
        }
    }
}

pub proof fn lemma_index_of_char(s: Seq<char>, c: char, i: int)
    requires
        0 <= i <= s.len(),
        forall|j: int| 0 <= j < i ==> s[j] != c,
    ensures
        i < s.len() && s[i] == c ==> index_of_char(s, c) == Some(i),
        i == s.len() ==> index_of_char(s, c) is None,
    decreases s.len(),
{
    if s.len() > 0 && i > 0 {
        assert forall|j: int| 0 <= j < i - 1 implies s.drop_first()[j] != c by {
            assert(s.drop_first()[j] == s[j + 1]);
        }
        lemma_index_of_char(s.drop_first(), c, i - 1);
    }
}

pub proof fn lemma_index_of_char_bound(s: Seq<char>, c: char)
    ensures
        index_of_char(s, c) matches Some(i) ==> 0 <= i < s.len() && s[i] == c,
    decreases s.len(),
{
    if s.len() > 0 && s[0] != c {
        lemma_index_of_char_bound(s.drop_first(), c);
    }
}

#[via_fn]
proof fn parse_decreases(cur: Seq<char>) {
    if cur.len() > 0 {
        lemma_index_of_char_bound(cur, '>');
        if let Some(e) = index_of_char(cur, '>') {
            lemma_trim_len(cur.skip(e + 1));
        }
        let p = modifier_prefix(cur).0;
        if 0 <= p < cur.len() {
            lemma_trim_len(cur.skip(p + 1));
        }
    }
}

#[via_fn]
proof fn panics_decreases(cur: Seq<char>) {
    if cur.len() > 0 {
        lemma_index_of_char_bound(cur, '>');
        if let Some(e) = index_of_char(cur, '>') {
            lemma_trim_len(cur.skip(e + 1));
        }
        let p = modifier_prefix(cur).0;
        if 0 <= p < cur.len() {
            lemma_trim_len(cur.skip(p + 1));
        }
    }
}

/// The key events written by an already-trimmed key binding.
pub open spec fn parse_trimmed(cur: Seq<char>) -> Seq<KeyEvent>
    decreases cur.len(),
    via parse_decreases
{
    if cur.len() == 0 {
        Seq::empty()
    } else if cur[0] == '<' {
        match index_of_char(cur, '>') {
            Some(e) => {
                if 0 <= e < cur.len() {
                    seq![angle_event(cur.subrange(1, e))] + parse_trimmed(trim(cur.skip(e + 1)))
                } else {
                    Seq::empty()
                }
            },
            None => Seq::empty(),
        }
    } else {
        let p = modifier_prefix(cur).0;
        let m = modifier_prefix(cur).1;
        if 0 <= p < cur.len() {
            seq![char_event(cur[p], m)] + parse_trimmed(trim(cur.skip(p + 1)))
        } else {
            Seq::empty()
        }
    }
}

/// The key events written by a key binding such as `"gg"`, `"<C-x><C-c>"` or `"ctrl-d"`.
pub open spec fn parse_keys(raw: Seq<char>) -> Seq<KeyEvent> {
    parse_trimmed(trim(raw))
}

/// A binding that opens with a key in angle brackets starts with that key: `<left>j` gives
/// the left arrow first.
pub proof fn law_bracketed_key_first(raw: Seq<char>, e: int)
    requires
        trim(raw).len() > 0,
        trim(raw)[0] == '<',
        index_of_char(trim(raw), '>') == Some(e),
    ensures
        parse_keys(raw).len() > 0,
        parse_keys(raw)[0] == angle_event(trim(raw).subrange(1, e)),
{
    lemma_index_of_char_bound(trim(raw), '>');
}

/// A binding whose parse would slice inside a multi-byte character: a character outside
/// angle brackets that is not ASCII.
pub open spec fn trimmed_parse_panics(cur: Seq<char>) -> bool
    decreases cur.len(),
    via panics_decreases
{
    if cur.len() == 0 {
        false
    } else if cur[0] == '<' {
        match index_of_char(cur, '>') {
            Some(e) => {
                if 0 <= e < cur.len() {
                    trimmed_parse_panics(trim(cur.skip(e + 1)))
                } else {
                    false
                }
            },
            None => false,
        }
    } else {
        let p = modifier_prefix(cur).0;
        if 0 <= p < cur.len() {
            utf8_width(cur[p]) > 1 || trimmed_parse_panics(trim(cur.skip(p + 1)))
        } else {
            false
        }
    }
}

pub open spec fn parse_panics(raw: Seq<char>) -> bool {
    trimmed_parse_panics(trim(raw))
}

/// The typed key `actual` satisfies the bound key `expected`.
pub open spec fn spec_key_events_match(expected: KeyEvent, actual: KeyEvent) -> bool {
    (expected.code == actual.code && expected.modifiers == actual.modifiers) || (
    spec_is_ctrl_i(expected) && spec_is_legacy_ctrl_i(actual))
}

pub open spec fn spec_is_ctrl_i(e: KeyEvent) -> bool {
    e.code == KeyCode::Char('i') && e.modifiers.control && !e.modifiers.alt
}

pub open spec fn spec_is_legacy_ctrl_i(e: KeyEvent) -> bool {
    (e.code == KeyCode::Tab || e.code == KeyCode::Char('\t')) && (e.modifiers.spec_is_empty() || (
    e.modifiers.control && !e.modifiers.alt))
}

/// `events` is a prefix of what the binding `keys` requires.
pub open spec fn spec_prefix_match(keys: Seq<KeyEvent>, events: Seq<KeyEvent>) -> bool {
    keys.len() >= events.len() && forall|i: int|
        0 <= i < events.len() ==> spec_key_events_match(#[trigger] keys[i], events[i])
}

/// `events` is exactly what the binding `keys` requires.
pub open spec fn spec_all_match(keys: Seq<KeyEvent>, events: Seq<KeyEvent>) -> bool {
    keys.len() == events.len() && spec_prefix_match(keys, events)
}

fn is_ctrl_i(event: &KeyEvent) -> (b: bool)
    ensures
        b == spec_is_ctrl_i(*event),
{
    event.code == KeyCode::Char('i') && event.modifiers.control && !event.modifiers.alt
}

fn is_legacy_ctrl_i(event: &KeyEvent) -> (b: bool)
    ensures
        b == spec_is_legacy_ctrl_i(*event),
{
    (event.code == KeyCode::Tab || event.code == KeyCode::Char('\t')) && (
    event.modifiers.is_empty() || (event.modifiers.control && !event.modifiers.alt))
}

/// In legacy terminal input Ctrl-I and Tab are encoded identically, so a binding of Ctrl-I
/// also accepts Tab.
pub fn key_events_match(expected: &KeyEvent, actual: &KeyEvent) -> (b: bool)
    ensures
        b == spec_key_events_match(*expected, *actual),
{
    if expected.code == actual.code && expected.modifiers == actual.modifiers {
        return true;
    }
    is_ctrl_i(expected) && is_legacy_ctrl_i(actual)
}

/// A sequence of key presses that a binding waits for.
#[derive(Debug, Clone)]
pub struct KeySequence(pub Vec<KeyEvent>);

fn one_modifier_exec(v: &Vec<char>, pos: usize) -> (r: (usize, u8))
    requires
        pos <= v@.len(),
    ensures
        r.0 as int == one_modifier(v@.skip(pos as int)).0,
        r.1 as int == one_modifier(v@.skip(pos as int)).1,
{
    let ghost s = v@.skip(pos as int);
    let n = v.len() - pos;
    let c0 = if n > 0 { v[pos] } else { ' ' };
    let c1 = if n > 1 { v[pos + 1] } else { ' ' };
    let short = |ch: char| -> (b: bool)
        ensures b == (n >= 2 && c0 == ch && c1 == '-'),
        { n >= 2 && c0 == ch && c1 == '-' };
    proof {
        assert(s.len() == n);
        if n > 0 { assert(s[0] == c0); }
        if n > 1 { assert(s[1] == c1); }
        assert(has_prefix(s, lit_c()) == (n >= 2 && c0 == 'C' && c1 == '-')) by {
            if n >= 2 && c0 == 'C' && c1 == '-' {
                assert(s.take(2) =~= lit_c());
            }
            if has_prefix(s, lit_c()) {
                assert(s.take(2)[0] == s[0]);
                assert(s.take(2)[1] == s[1]);
            }
        }
        assert(has_prefix(s, lit_a()) == (n >= 2 && c0 == 'A' && c1 == '-')) by {
            if n >= 2 && c0 == 'A' && c1 == '-' {
                assert(s.take(2) =~= lit_a());
            }
            if has_prefix(s, lit_a()) {
                assert(s.take(2)[0] == s[0]);
                assert(s.take(2)[1] == s[1]);
            }
        }
        assert(has_prefix(s, lit_s()) == (n >= 2 && c0 == 'S' && c1 == '-')) by {
            if n >= 2 && c0 == 'S' && c1 == '-' {
                assert(s.take(2) =~= lit_s());
            }
            if has_prefix(s, lit_s()) {
                assert(s.take(2)[0] == s[0]);
                assert(s.take(2)[1] == s[1]);
            }
        }
    }
    let ctrl = ci_prefix_at(v, pos, &['c', 't', 'r', 'l', '-']);
    let is_c = short('C');
    if ctrl || is_c {
        return (if is_c { 2 } else { 5 }, 1);
    }
    let alt = ci_prefix_at(v, pos, &['a', 'l', 't', '-']);
    let is_a = short('A');
    if alt || is_a {
        return (if is_a { 2 } else { 4 }, 2);
    }
    let shift = ci_prefix_at(v, pos, &['s', 'h', 'i', 'f', 't', '-']);
    let is_s = short('S');
    if shift || is_s {
        return (if is_s { 2 } else { 6 }, 3);
    }
    (0, 0)
}

fn ascii_lower_exec(c: char) -> (r: char)
    ensures
        r == ascii_lower(c),
{
    if 'A' <= c && c <= 'Z' {
        (((c as u32) + 32) as u8) as char
    } else {
        c
    }
}

fn ci_prefix_at(v: &Vec<char>, pos: usize, p: &[char]) -> (b: bool)
    requires
        pos <= v@.len(),
    ensures
        b == has_prefix_ci(v@.skip(pos as int), p@),
{
    let vl = v.len();
    if vl - pos < p.len() {
        return false;
    }
    let mut i: usize = 0;
    while i < p.len()
        invariant
            vl == v@.len(),
            pos <= v@.len(),
            pos + p@.len() <= v@.len(),
            i <= p@.len(),
            forall|j: int| 0 <= j < i ==> ascii_lower(#[trigger] v@.skip(pos as int)[j]) == p@[j],
        decreases p@.len() - i,
    {
        assert(i < p@.len());
        assert(pos + i < v@.len());
        assert(v@.skip(pos as int)[i as int] == v@[pos + i]);
        if ascii_lower_exec(v[pos + i]) != p[i] {
            return false;
        }
        i += 1;
    }
    true
}

} // verus!

verus! {

fn union_mods(a: KeyModifiers, b: KeyModifiers) -> (r: KeyModifiers)
    ensures
        r == a.spec_union(b),
{
    KeyModifiers {
        shift: a.shift || b.shift,
        control: a.control || b.control,
        alt: a.alt || b.alt,
        super_key: a.super_key || b.super_key,
        hyper: a.hyper || b.hyper,
        meta: a.meta || b.meta,
    }
}

fn modifier_of_exec(kind: u8) -> (m: KeyModifiers)
    ensures
        m == modifier_of(kind as int),
{
    if kind == 1 {
        KeyModifiers::ctrl()
    } else if kind == 2 {
        KeyModifiers::alt_only()
    } else {
        KeyModifiers::shift_only()
    }
}

proof fn lemma_union_comm_assoc(a: KeyModifiers, b: KeyModifiers, c: KeyModifiers)
    ensures
        a.spec_union(b.spec_union(c)) == a.spec_union(b).spec_union(c),
        a.spec_union(b) == b.spec_union(a),
        KeyModifiers::none().spec_union(a) == a,
        a.spec_union(KeyModifiers::none()) == a,
{
}

/// Splits the leading modifier prefixes off `v[start..]`; returns where the key part
/// starts and the modifiers named.
fn extract_modifiers(v: &Vec<char>, start: usize) -> (r: (usize, KeyModifiers))
    requires
        start <= v@.len(),
    ensures
        start <= r.0 <= v@.len(),
        r.0 - start == modifier_prefix(v@.skip(start as int)).0,
        r.1 == modifier_prefix(v@.skip(start as int)).1,
{
    let mut pos = start;
    let mut acc = KeyModifiers::empty();
    loop
        invariant
            start <= pos <= v@.len(),
            modifier_prefix(v@.skip(start as int)).0 == (pos - start) + modifier_prefix(
                v@.skip(pos as int),
            ).0,
            modifier_prefix(v@.skip(start as int)).1 == modifier_prefix(
                v@.skip(pos as int),
            ).1.spec_union(acc),
        decreases v@.len() - pos,
    {
        let (n, kind) = one_modifier_exec(v, pos);
        if n == 0 || n > v.len() - pos {
            proof {
                lemma_union_comm_assoc(acc, acc, acc);
            }
            return (pos, acc);
        }
        proof {
            let s = v@.skip(pos as int);
            assert(s.skip(n as int) =~= v@.skip(pos + n));
            let (k, m) = modifier_prefix(s.skip(n as int));
            lemma_union_comm_assoc(m, modifier_of(kind as int), acc);
            lemma_modifier_prefix_bound(s.skip(n as int));
        }
        acc = union_mods(modifier_of_exec(kind), acc);
        pos = pos + n;
    }
}

} // verus!

verus! {

fn named_key_exec(l: &Vec<char>) -> (r: Option<KeyCode>)
    ensures
        r == named_key(l@),
{
    if chars_eq(l, &['e', 's', 'c']) {
        Some(KeyCode::Esc)
    } else if chars_eq(l, &['e', 'n', 't', 'e', 'r']) {
        Some(KeyCode::Enter)
    } else if chars_eq(l, &['l', 'e', 'f', 't']) {
        Some(KeyCode::Left)
    } else if chars_eq(l, &['r', 'i', 'g', 'h', 't']) {
        Some(KeyCode::Right)
    } else if chars_eq(l, &['u', 'p']) {
        Some(KeyCode::Up)
    } else if chars_eq(l, &['d', 'o', 'w', 'n']) {
        Some(KeyCode::Down)
    } else if chars_eq(l, &['h', 'o', 'm', 'e']) {
        Some(KeyCode::Home)
    } else if chars_eq(l, &['e', 'n', 'd']) {
        Some(KeyCode::End)
    } else if chars_eq(l, &['p', 'a', 'g', 'e', 'u', 'p']) {
        Some(KeyCode::PageUp)
    } else if chars_eq(l, &['p', 'a', 'g', 'e', 'd', 'o', 'w', 'n']) {
        Some(KeyCode::PageDown)
    } else if chars_eq(l, &['b', 'a', 'c', 'k', 't', 'a', 'b']) {
        Some(KeyCode::BackTab)
    } else if chars_eq(l, &['b', 'a', 'c', 'k', 's', 'p', 'a', 'c', 'e']) {
        Some(KeyCode::Backspace)
    } else if chars_eq(l, &['d', 'e', 'l', 'e', 't', 'e']) {
        Some(KeyCode::Delete)
    } else if chars_eq(l, &['i', 'n', 's', 'e', 'r', 't']) {
        Some(KeyCode::Insert)
    } else if chars_eq(l, &['t', 'a', 'b']) {
        Some(KeyCode::Tab)
    } else if chars_eq(l, &['s', 'p', 'a', 'c', 'e']) {
        Some(KeyCode::Char(' '))
    } else if l.len() == 2 && l[0] == 'f' && '1' <= l[1] && l[1] <= '9' {
        Some(KeyCode::F(((l[1] as u32) - 48) as u8))
    } else if chars_eq(l, &['f', '1', '0']) {
        Some(KeyCode::F(10))
    } else if chars_eq(l, &['f', '1', '1']) {
        Some(KeyCode::F(11))
    } else if chars_eq(l, &['f', '1', '2']) {
        Some(KeyCode::F(12))
    } else {
        None
    }
}

/// The key event written inside one pair of angle brackets.
fn parse_angle_bracket_notation(inner: &Vec<char>) -> (e: KeyEvent)
    ensures
        e == angle_event(inner@),
{
    let (p, m) = extract_modifiers(inner, 0);
    proof {
        assert(inner@.skip(0) =~= inner@);
    }
    let rem = sub_chars(inner, p, inner.len());
    proof {
        assert(rem@ =~= inner@.skip(p as int));
    }
    let rem_str = from_chars(rem.as_slice());
    let lowered = to_lowercase(rem_str.as_str());
    let l = to_chars(lowered.as_str());
    match named_key_exec(&l) {
        Some(KeyCode::BackTab) => KeyEvent {
            code: KeyCode::BackTab,
            modifiers: union_mods(m, KeyModifiers::shift_only()),
        },
        Some(code) => KeyEvent { code, modifiers: m },
        None => {
            let c = if l.len() > 0 {
                l[0]
            } else {
                ' '
            };
            KeyEvent { code: KeyCode::Char(c), modifiers: m }
        },
    }
}

proof fn lemma_parse_char_step(cur: Seq<char>, p: int)
    requires
        cur.len() > 0,
        cur[0] != '<',
        p == modifier_prefix(cur).0,
        0 <= p < cur.len(),
    ensures
        parse_trimmed(cur) == seq![char_event(cur[p], modifier_prefix(cur).1)] + parse_trimmed(
            trim(cur.skip(p + 1)),
        ),
        trimmed_parse_panics(cur) == (utf8_width(cur[p]) > 1 || trimmed_parse_panics(trim(cur.skip(p + 1)))),
{
}

proof fn lemma_parse_angle_step(cur: Seq<char>, e: int)
    requires
        cur.len() > 0,
        cur[0] == '<',
        index_of_char(cur, '>') == Some(e),
        0 <= e < cur.len(),
    ensures
        parse_trimmed(cur) == seq![angle_event(cur.subrange(1, e))] + parse_trimmed(trim(cur.skip(e + 1))),
        trimmed_parse_panics(cur) == trimmed_parse_panics(trim(cur.skip(e + 1))),
{
}

pub(crate) fn find_char(v: &Vec<char>, c: char) -> (r: Option<usize>)
    ensures
        r matches Some(i) ==> index_of_char(v@, c) == Some(i as int),
        r is None ==> index_of_char(v@, c) is None,
{
    let mut i: usize = 0;
    while i < v.len()
        invariant
            i <= v@.len(),
            forall|j: int| 0 <= j < i ==> v@[j] != c,
        decreases v@.len() - i,
    {
        if v[i] == c {
            proof {
                lemma_index_of_char(v@, c, i as int);
            }
            return Some(i);
        }
        i += 1;
    }
    proof {
        lemma_index_of_char(v@, c, i as int);
    }
    None
}

impl KeySequence {
    /// Whether `KeySequence::from(raw)` can parse `raw`: parsing steps one byte past a
    /// character written outside angle brackets, which must therefore be ASCII.
    pub fn can_parse(raw: &str) -> (b: bool)
        ensures
            b == !parse_panics(raw@),
    {
        let chars = to_chars(raw);
        let mut cur = trim_chars(&chars);
        loop
            invariant
                parse_panics(raw@) == trimmed_parse_panics(cur@),
            decreases cur@.len(),
        {
            if cur.len() == 0 {
                return true;
            }
            if cur[0] == '<' {
                match find_char(&cur, '>') {
                    Some(e) => {
                        proof {
                            lemma_index_of_char_bound(cur@, '>');
                            lemma_trim_len(cur@.skip(e + 1));
                        }
                        let rest = sub_chars(&cur, e + 1, cur.len());
                        proof {
                            assert(rest@ =~= cur@.skip(e + 1));
                        }
                        cur = trim_chars(&rest);
                    },
                    None => {
                        return true;
                    },
                }
            } else {
                let (p, _m) = extract_modifiers(&cur, 0);
                proof {
                    assert(cur@.skip(0) =~= cur@);
                }
                if p >= cur.len() {
                    return true;
                }
                if char_width_utf8(cur[p]) > 1 {
                    return false;
                }
                proof {
                    lemma_trim_len(cur@.skip(p + 1));
                }
                let rest = sub_chars(&cur, p + 1, cur.len());
                proof {
                    assert(rest@ =~= cur@.skip(p + 1));
                }
                cur = trim_chars(&rest);
            }
        }
    }

    /// Parses the key notation: `<...>` groups name one key each (with optional `C-`, `A-`,
    /// `S-`, `ctrl-`, `alt-`, `shift-` prefixes); every other character is one key.
    pub fn from(raw: &str) -> (r: KeySequence)
        requires
            !parse_panics(raw@),
        ensures
            r.0@ == parse_keys(raw@),
    {
        let chars = to_chars(raw);
        let mut cur = trim_chars(&chars);
        let mut events: Vec<KeyEvent> = Vec::new();
        loop
            invariant
                parse_keys(raw@) == events@ + parse_trimmed(cur@),
                !trimmed_parse_panics(cur@),
            decreases cur@.len(),
        {
            if cur.len() == 0 {
                assert(events@ + parse_trimmed(cur@) =~= events@);
                return KeySequence(events);
            }
            if cur[0] == '<' {
                match find_char(&cur, '>') {
                    Some(e) => {
                        proof {
                            lemma_index_of_char_bound(cur@, '>');
                            lemma_trim_len(cur@.skip(e + 1));
                        }
                        let inner = sub_chars(&cur, 1, e);
                        let ev = parse_angle_bracket_notation(&inner);
                        let rest = sub_chars(&cur, e + 1, cur.len());
                        proof {
                            assert(rest@ =~= cur@.skip(e + 1));
                        }
                        let next = trim_chars(&rest);
                        proof {
                            lemma_parse_angle_step(cur@, e as int);
                            let t = parse_trimmed(next@);
                            assert(events@.push(ev) + t =~= events@ + (seq![ev] + t));
                        }
                        events.push(ev);
                        cur = next;
                    },
                    None => {
                        assert(events@ + parse_trimmed(cur@) =~= events@);
                        return KeySequence(events);
                    },
                }
            } else {
                let (p, m) = extract_modifiers(&cur, 0);
                proof {
                    assert(cur@.skip(0) =~= cur@);
                }
                if p >= cur.len() {
                    assert(events@ + parse_trimmed(cur@) =~= events@);
                    return KeySequence(events);
                }
                let ev = KeyEvent { code: KeyCode::Char(cur[p]), modifiers: m };
                proof {
                    lemma_trim_len(cur@.skip(p + 1));
                }
                let rest = sub_chars(&cur, p + 1, cur.len());
                proof {
                    assert(rest@ =~= cur@.skip(p + 1));
                }
                let next = trim_chars(&rest);
                proof {
                    lemma_parse_char_step(cur@, p as int);
                    let t = parse_trimmed(next@);
                    assert(events@.push(ev) + t =~= events@ + (seq![ev] + t));
                }
                events.push(ev);
                cur = next;
            }
        }
    }

    /// The keys typed so far (`events`) could still complete this binding.
    pub fn prefix_match(&self, events: &[KeyEvent]) -> (b: bool)
        ensures
            b == spec_prefix_match(self.0@, events@),
    {
        if self.0.len() < events.len() {
            return false;
        }
        let mut i: usize = 0;
        while i < events.len()
            invariant
                self.0@.len() >= events@.len(),
                i <= events@.len(),
                forall|j: int| 0 <= j < i ==> spec_key_events_match(#[trigger] self.0@[j], events@[j]),
            decreases events@.len() - i,
        {
            if !key_events_match(&self.0[i], &events[i]) {
                return false;
            }
            i += 1;
        }
        true
    }

    /// The keys typed so far (`events`) are exactly this binding.
    pub fn all_match(&self, events: &[KeyEvent]) -> (b: bool)
        ensures
            b == spec_all_match(self.0@, events@),
    {
        self.0.len() == events.len() && self.prefix_match(events)
    }

    /// Both sequences hold the same key events.
    pub fn same_keys(&self, other: &KeySequence) -> (b: bool)
        ensures
            b == (self.0@ == other.0@),
    {
        if self.0.len() != other.0.len() {
            return false;
        }
        let mut i: usize = 0;
        while i < self.0.len()
            invariant
                self.0@.len() == other.0@.len(),
                i <= self.0@.len(),
                forall|j: int| 0 <= j < i ==> self.0@[j] == other.0@[j],
            decreases self.0@.len() - i,
        {
            if self.0[i] != other.0[i] {
                return false;
            }
            i += 1;
        }
        assert(self.0@ =~= other.0@);
        true
    }
}

} // verus!
