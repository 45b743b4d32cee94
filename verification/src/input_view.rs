//! The one-line input box: its editing state and the part of the text that fits the box.

use vstd::prelude::*;
use crate::edit::{
    backspace_at, cursor_left_at, cursor_right_at, cursor_to_end_at, delete_at, edit_ok, insert_at,
    insert_char_at, lemma_boundary_bounds, lemma_zero_boundary, remove_at, char_index_exec,
};
use crate::text::{
    byte_len, byte_offset, char_index, char_width_utf8, from_chars, is_boundary, lemma_offset_full,
    lemma_offset_step, str_byte_len, sub_chars, to_chars, utf8_width,
};
use crate::width::{char_display_width, char_width};

verus! {

broadcast use vstd::seq_lib::group_seq_properties;

/// Columns a character takes in the box: its display width, zero for a control
/// character, kept as a `u16`.
pub open spec fn cols(c: char) -> int {
    (match char_width(c) {
        Some(w) => w,
        None => 0usize,
    }) as u16 as int
}

/// Columns a run of characters takes.
pub open spec fn cols_sum(s: Seq<char>) -> int
    decreases s.len(),
{
    if s.len() == 0 {
        0
    } else {
        cols_sum(s.drop_last()) + cols(s.last())
    }
}

/// Character index of the cursor: the byte offset, clamped to the text, as a character index.
pub open spec fn cursor_char(s: Seq<char>, cursor: int) -> int {
    if cursor >= byte_len(s) {
        s.len() as int
    } else {
        char_index(s, cursor)
    }
}

/// Columns left for the text before the cursor: one less than the box when that text fills
/// the box, so that the cursor stays visible.
pub open spec fn before_limit(s: Seq<char>, k: int, max: int) -> int {
    if cols_sum(s.take(k)) >= max {
        max - 1
    } else {
        max
    }
}

/// Characters `j..e` are the window shown for cursor index `k`: `j` is the first character
/// from which the text up to the cursor fits in `before` columns, and the window then runs as
/// far to the right as `max` columns allow (to the end of the text when `max` is the largest
/// `u16`, where the running width saturates).
pub open spec fn window_fits(s: Seq<char>, k: int, before: int, max: int, j: int, e: int) -> bool {
    &&& 0 <= j <= k <= e <= s.len()
    &&& cols_sum(s.subrange(j, k)) <= before
    &&& (j == 0 || cols_sum(s.subrange(j - 1, k)) > before)
    &&& (max == u16::MAX ==> e == s.len())
    &&& (max < u16::MAX ==> cols_sum(s.subrange(j, e)) <= max && (e == s.len() || cols_sum(
        s.subrange(j, e + 1),
    ) > max))
}

/// The window shown for the cursor at byte `cursor` in `max` columns is characters `j..e`.
pub open spec fn window_at(s: Seq<char>, cursor: int, max: int, j: int, e: int) -> bool {
    let k = cursor_char(s, cursor);
    window_fits(s, k, before_limit(s, k, max), max, j, e)
}

pub proof fn lemma_cols_nonneg(c: char)
    ensures
        0 <= cols(c) <= u16::MAX,
{
}

pub proof fn lemma_cols_sum_concat(a: Seq<char>, b: Seq<char>)
    ensures
        cols_sum(a + b) == cols_sum(a) + cols_sum(b),
    decreases b.len(),
{
    if b.len() == 0 {
        assert(a + b =~= a);
    } else {
        assert((a + b).drop_last() =~= a + b.drop_last());
        lemma_cols_sum_concat(a, b.drop_last());
    }
}

pub proof fn lemma_cols_sum_nonneg(s: Seq<char>)
    ensures
        cols_sum(s) >= 0,
    decreases s.len(),
{
    if s.len() > 0 {
        lemma_cols_sum_nonneg(s.drop_last());
    }
}

/// Splitting a range at `b` splits its width.
pub proof fn lemma_cols_split(s: Seq<char>, a: int, b: int, c: int)
    requires
        0 <= a <= b <= c <= s.len(),
    ensures
        cols_sum(s.subrange(a, c)) == cols_sum(s.subrange(a, b)) + cols_sum(s.subrange(b, c)),
        cols_sum(s.subrange(a, b)) >= 0,
        cols_sum(s.subrange(b, c)) >= 0,
{
    assert(s.subrange(a, c) =~= s.subrange(a, b) + s.subrange(b, c));
    lemma_cols_sum_concat(s.subrange(a, b), s.subrange(b, c));
    lemma_cols_sum_nonneg(s.subrange(a, b));
    lemma_cols_sum_nonneg(s.subrange(b, c));
}

/// Widening a range by one character on the right adds that character's width.
pub proof fn lemma_cols_step(s: Seq<char>, a: int, b: int)
    requires
        0 <= a <= b < s.len(),
    ensures
        cols_sum(s.subrange(a, b + 1)) == cols_sum(s.subrange(a, b)) + cols(s[b]),
{
    assert(s.subrange(a, b + 1).drop_last() =~= s.subrange(a, b));
}

/// The columns a character takes, as the box counts them.
fn char_cols(c: char) -> (w: u16)
    ensures
        w as int == cols(c),
{
    match char_display_width(c) {
        Some(w) => w as u16,
        None => 0usize as u16,
    }
}

/// Byte offset of character `k`.
fn byte_offset_exec(v: &Vec<char>, k: usize) -> (b: usize)
    requires
        k <= v@.len(),
        byte_len(v@) <= usize::MAX,
    ensures
        b == byte_offset(v@, k as int),
{
    let mut b: usize = 0;
    let mut i: usize = 0;
    assert(v@.take(0) =~= Seq::<char>::empty());
    while i < k
        invariant
            i <= k <= v@.len(),
            byte_len(v@) <= usize::MAX,
            b == byte_offset(v@, i as int),
        decreases k - i,
    {
        proof {
            lemma_offset_step(v@, i as int);
            if i + 1 < v@.len() {
                crate::text::lemma_offset_strict(v@, i + 1, v@.len() as int);
            }
            lemma_offset_full(v@);
        }
        b = b + char_width_utf8(v[i]);
        i += 1;
    }
    b
}

/// The part of the input box's text editing state, for the filter line.
pub struct InputDialogState {
    pub text: String,
    pub cursor_position: usize,
    pub cursor_x: u16,
    pub cursor_y: u16,
    /// Shown as the box's title.
    pub prompt: String,
    /// Shown while the text is empty.
    pub placeholder: String,
    /// The text is shown masked.
    pub secret: bool,
}

impl InputDialogState {
    /// The cursor is a character boundary of the text.
    pub open spec fn wf(&self) -> bool {
        edit_ok(self.text@, self.cursor_position as int)
    }

    /// An empty input with the given prompt and placeholder.
    pub fn new(prompt: &str, placeholder: &str) -> (s: Self)
        ensures
            s.wf(),
            s.text@.len() == 0,
            s.cursor_position == 0,
            s.cursor_x == 0 && s.cursor_y == 0,
            s.prompt@ == prompt@,
            s.placeholder@ == placeholder@,
            !s.secret,
    {
        let text = String::new();
        proof {
            lemma_zero_boundary(text@);
        }
        InputDialogState {
            text,
            cursor_position: 0,
            cursor_x: 0,
            cursor_y: 0,
            prompt: String::from_str(prompt),
            placeholder: String::from_str(placeholder),
            secret: false,
        }
    }

    /// An input holding `s` with the cursor at its end and a blank prompt.
    pub fn from_filter_input(s: &str) -> (r: Self)
        requires
            byte_len(s@) <= isize::MAX,
        ensures
            r.wf(),
            r.text@ == s@,
            r.cursor_position == byte_len(s@),
            r.cursor_x == 0 && r.cursor_y == 0,
            r.prompt@ == seq![' '],
            r.placeholder@.len() == 0,
            !r.secret,
    {
        let text = String::from_str(s);
        let mut cursor_position: usize = 0;
        cursor_to_end_at(&text, &mut cursor_position);
        let prompt = String::from_str(" ");
        proof {
            reveal_strlit(" ");
        }
        InputDialogState {
            text,
            cursor_position,
            cursor_x: 0,
            cursor_y: 0,
            prompt,
            placeholder: String::new(),
            secret: false,
        }
    }

    /// Types `c` at the cursor.
    pub fn insert_char(&mut self, c: char)
        requires
            old(self).wf(),
            byte_len(old(self).text@) + utf8_width(c) <= isize::MAX,
        ensures
            final(self).wf(),
            final(self).text@ == insert_at(
                old(self).text@,
                char_index(old(self).text@, old(self).cursor_position as int),
                c,
            ),
            final(self).cursor_position == old(self).cursor_position + utf8_width(c),
    {
        insert_char_at(&mut self.text, &mut self.cursor_position, c);
    }

    /// Deletes the character before the cursor.
    pub fn backspace(&mut self)
        requires
            old(self).wf(),
        ensures
            final(self).wf(),
            old(self).cursor_position == 0 ==> final(self).text@ == old(self).text@
                && final(self).cursor_position == 0,
            old(self).cursor_position > 0 ==> ({
                let k = char_index(old(self).text@, old(self).cursor_position as int);
                &&& final(self).text@ == remove_at(old(self).text@, k - 1)
                &&& final(self).cursor_position == byte_offset(old(self).text@, k - 1)
            }),
    {
        backspace_at(&mut self.text, &mut self.cursor_position);
    }

    /// Deletes the character at the cursor.
    pub fn delete(&mut self)
        requires
            old(self).wf(),
        ensures
            final(self).wf(),
            final(self).cursor_position == old(self).cursor_position,
            old(self).cursor_position == byte_len(old(self).text@) ==> final(self).text@ == old(
                self,
            ).text@,
            old(self).cursor_position < byte_len(old(self).text@) ==> final(self).text@ == remove_at(
                old(self).text@,
                char_index(old(self).text@, old(self).cursor_position as int),
            ),
    {
        delete_at(&mut self.text, &mut self.cursor_position);
    }

    /// Empties the text.
    pub fn clear(&mut self)
        ensures
            final(self).wf(),
            final(self).text@.len() == 0,
            final(self).cursor_position == 0,
            final(self).prompt == old(self).prompt,
    {
        self.text = String::new();
        self.cursor_position = 0;
        proof {
            lemma_zero_boundary(self.text@);
        }
    }

    /// Moves the cursor one character left.
    pub fn cursor_left(&mut self)
        requires
            old(self).wf(),
        ensures
            final(self).wf(),
            final(self).text == old(self).text,
            old(self).cursor_position == 0 ==> final(self).cursor_position == 0,
            old(self).cursor_position > 0 ==> final(self).cursor_position == byte_offset(
                old(self).text@,
                char_index(old(self).text@, old(self).cursor_position as int) - 1,
            ),
    {
        cursor_left_at(&self.text, &mut self.cursor_position);
    }

    /// Moves the cursor one character right.
    pub fn cursor_right(&mut self)
        requires
            old(self).wf(),
        ensures
            final(self).wf(),
            final(self).text == old(self).text,
            old(self).cursor_position == byte_len(old(self).text@) ==> final(self).cursor_position
                == old(self).cursor_position,
            old(self).cursor_position < byte_len(old(self).text@) ==> final(self).cursor_position
                == byte_offset(
                old(self).text@,
                char_index(old(self).text@, old(self).cursor_position as int) + 1,
            ),
    {
        cursor_right_at(&self.text, &mut self.cursor_position);
    }

    /// Moves the cursor before the first character.
    pub fn cursor_to_start(&mut self)
        requires
            old(self).wf(),
        ensures
            final(self).wf(),
            final(self).text == old(self).text,
            final(self).cursor_position == 0,
    {
        self.cursor_position = 0;
        proof {
            lemma_zero_boundary(self.text@);
        }
    }

    /// Moves the cursor after the last character.
    pub fn cursor_to_end(&mut self)
        requires
            old(self).wf(),
        ensures
            final(self).wf(),
            final(self).text == old(self).text,
            final(self).cursor_position == byte_len(old(self).text@),
    {
        cursor_to_end_at(&self.text, &mut self.cursor_position);
    }
}

/// Width of characters `0..k`.
fn prefix_cols(chars: &Vec<char>, k: usize) -> (w: u16)
    requires
        k <= chars@.len(),
        cols_sum(chars@.take(k as int)) <= u16::MAX,
    ensures
        w as int == cols_sum(chars@.take(k as int)),
{
    let ghost s = chars@;
    let mut w: u16 = 0;
    let mut i: usize = 0;
    assert(s.subrange(0, 0) =~= Seq::<char>::empty());
    while i < k
        invariant
            i <= k <= s.len(),
            chars@ == s,
            cols_sum(s.take(k as int)) <= u16::MAX,
            w as int == cols_sum(s.subrange(0, i as int)),
        decreases k - i,
    {
        proof {
            lemma_cols_step(s, 0, i as int);
            lemma_cols_split(s, 0, i + 1, k as int);
            assert(s.take(k as int) =~= s.subrange(0, k as int));
        }
        w = w + char_cols(chars[i]);
        i += 1;
    }
    assert(s.subrange(0, k as int) =~= s.take(k as int));
    w
}

/// Width of characters `0..k`, or nothing where it passes `u16::MAX`.
fn prefix_cols_checked(chars: &Vec<char>, k: usize) -> (w: Option<u16>)
    requires
        k <= chars@.len(),
    ensures
        match w {
            Some(w) => w as int == cols_sum(chars@.take(k as int)),
            None => cols_sum(chars@.take(k as int)) > u16::MAX,
        },
{
    let ghost s = chars@;
    let mut w: u16 = 0;
    let mut i: usize = 0;
    assert(s.subrange(0, 0) =~= Seq::<char>::empty());
    while i < k
        invariant
            i <= k <= s.len(),
            chars@ == s,
            w as int == cols_sum(s.subrange(0, i as int)),
        decreases k - i,
    {
        proof {
            lemma_cols_step(s, 0, i as int);
        }
        let c = char_cols(chars[i]);
        if c > u16::MAX - w {
            proof {
                lemma_cols_split(s, 0, i + 1, k as int);
                assert(s.take(k as int) =~= s.subrange(0, k as int));
            }
            return None;
        }
        w = w + c;
        i += 1;
    }
    assert(s.subrange(0, k as int) =~= s.take(k as int));
    Some(w)
}

/// Adding one character on the left of a range adds its width.
pub proof fn lemma_cols_prepend(s: Seq<char>, a: int, b: int)
    requires
        0 < a <= b <= s.len(),
    ensures
        cols_sum(s.subrange(a - 1, b)) == cols(s[a - 1]) + cols_sum(s.subrange(a, b)),
{
    assert(s.subrange(a - 1, b) =~= seq![s[a - 1]] + s.subrange(a, b));
    lemma_cols_sum_concat(seq![s[a - 1]], s.subrange(a, b));
    assert(seq![s[a - 1]].drop_last() =~= Seq::<char>::empty());
    assert(cols_sum(Seq::<char>::empty()) == 0);
    assert(cols_sum(seq![s[a - 1]]) == cols(s[a - 1]));
}

/// The first character from which the text up to `k` fits in `before` columns, and that
/// width.
fn window_start(chars: &Vec<char>, k: usize, before: u16) -> (r: (usize, u16))
    requires
        k <= chars@.len(),
        cols_sum(chars@.take(k as int)) <= u16::MAX,
    ensures
        r.0 <= k,
        r.1 as int == cols_sum(chars@.subrange(r.0 as int, k as int)),
        r.1 <= before,
        r.0 == 0 || cols_sum(chars@.subrange(r.0 - 1, k as int)) > before,
{
    let ghost s = chars@;
    let mut width: u16 = 0;
    let mut idx: usize = k;
    assert(s.subrange(k as int, k as int) =~= Seq::<char>::empty());
    assert(s.take(k as int) =~= s.subrange(0, k as int));
    while idx > 0
        invariant
            idx <= k <= s.len(),
            chars@ == s,
            cols_sum(s.subrange(0, k as int)) <= u16::MAX,
            width as int == cols_sum(s.subrange(idx as int, k as int)),
            width <= before,
        decreases idx,
    {
        proof {
            lemma_cols_split(s, 0, idx - 1, k as int);
            lemma_cols_prepend(s, idx as int, k as int);
        }
        let next = width + char_cols(chars[idx - 1]);
        if next > before {
            return (idx, width);
        }
        width = next;
        idx -= 1;
    }
    (0, width)
}

/// The end of the window that starts at `start` and takes at most `max` columns, counted
/// with a saturating `u16`.
fn window_end(chars: &Vec<char>, start: usize, max: u16) -> (e: usize)
    requires
        start <= chars@.len(),
    ensures
        start <= e <= chars@.len(),
        max == u16::MAX ==> e == chars@.len(),
        max < u16::MAX ==> cols_sum(chars@.subrange(start as int, e as int)) <= max && (e
            == chars@.len() || cols_sum(chars@.subrange(start as int, e + 1)) > max),
{
    let ghost s = chars@;
    let n = chars.len();
    let mut visible: u16 = 0;
    let mut j: usize = start;
    assert(s.subrange(start as int, start as int) =~= Seq::<char>::empty());
    while j < n
        invariant
            start <= j <= n,
            n == s.len(),
            chars@ == s,
            max < u16::MAX ==> visible as int == cols_sum(s.subrange(start as int, j as int)),
            visible <= max,
        decreases n - j,
    {
        proof {
            lemma_cols_step(s, start as int, j as int);
            lemma_cols_nonneg(s[j as int]);
        }
        let w = char_cols(chars[j]);
        if visible.saturating_add(w) > max {
            return j;
        }
        visible = visible.saturating_add(w);
        j += 1;
    }
    n
}

/// The columns left for text in an input box `area_width` wide: two border columns and the
/// arrow's width less, at least 0.
pub fn text_width(area_width: u16, arrow_width: u16) -> (w: u16)
    ensures
        w as int == (if area_width < 2 {
            0
        } else if area_width - 2 < arrow_width {
            0
        } else {
            area_width - 2 - arrow_width
        }),
{
    area_width.saturating_sub(2).saturating_sub(arrow_width)
}

/// The screen column of the input cursor in a box at `area_x`, `area_width` wide: past the
/// border, the arrow and the text before the cursor, but not onto the right border.
pub fn cursor_column(area_x: u16, area_width: u16, arrow_width: u16, offset: u16) -> (x: u16)
    requires
        area_x + 1 + arrow_width + offset <= u16::MAX,
        area_x + area_width <= u16::MAX,
    ensures
        x as int == (if area_x + 1 + arrow_width + offset < area_x + (if area_width < 2 {
            0
        } else {
            area_width - 2
        }) {
            area_x + 1 + arrow_width + offset
        } else {
            area_x + (if area_width < 2 {
                0
            } else {
                area_width - 2
            })
        }),
{
    let wanted = area_x + 1 + arrow_width + offset;
    let limit = area_x + area_width.saturating_sub(2);
    if wanted < limit {
        wanted
    } else {
        limit
    }
}

/// A masked text: one bullet for every character.
pub fn mask(text: &str) -> (r: String)
    ensures
        r@ == Seq::new(text@.len(), |i: int| '•'),
{
    let n = text.unicode_len();
    let mut v: Vec<char> = Vec::new();
    let mut i: usize = 0;
    while i < n
        invariant
            i <= n,
            v@ == Seq::new(i as nat, |k: int| '•'),
        decreases n - i,
    {
        v.push('•');
        assert(v@ =~= Seq::new((i + 1) as nat, |k: int| '•'));
        i += 1;
    }
    from_chars(v.as_slice())
}

/// Lays out the input box.
pub struct InputDialogWidget;

impl InputDialogWidget {
    pub fn new() -> (w: Self) {
        InputDialogWidget
    }

    /// The window of `text` shown in `max_width` columns with the cursor at byte
    /// `cursor_position`: its starting byte, its text, and the cursor's column in it.
    pub fn visible_window(text: &str, cursor_position: usize, max_width: u16) -> (r: (
        usize,
        String,
        u16,
    ))
        requires
            cursor_position >= byte_len(text@) || is_boundary(text@, cursor_position as int),
            text@.len() > 0 && max_width > 0 ==> cols_sum(text@.take(cursor_char(text@, cursor_position as int)))
                <= u16::MAX,
        ensures
            text@.len() == 0 || max_width == 0 ==> r.0 == 0 && r.1@.len() == 0 && r.2 == 0,
            r.2 <= max_width,
            text@.len() > 0 && max_width > 0 ==> exists|j: int, e: int|
                #[trigger] window_at(text@, cursor_position as int, max_width as int, j, e)
                    && r.0 == byte_offset(text@, j) && r.1@ == text@.subrange(j, e) && r.2 == cols_sum(
                    text@.subrange(j, cursor_char(text@, cursor_position as int)),
                ),
    {
        let ghost s = text@;
        let total = str_byte_len(text);
        proof {
            crate::text::lemma_byte_len_ge_len(s);
            lemma_offset_full(s);
        }
        if total == 0 || max_width == 0 {
            return (0, String::new(), 0);
        }
        let chars = to_chars(text);
        let k = if cursor_position >= total {
            chars.len()
        } else {
            proof {
                lemma_boundary_bounds(s, cursor_position as int);
            }
            char_index_exec(&chars, cursor_position)
        };
        assert(k as int == cursor_char(s, cursor_position as int));
        let before_total = prefix_cols(&chars, k);
        let before: u16 = if before_total >= max_width {
            max_width - 1
        } else {
            max_width
        };
        let (start, width_before) = window_start(&chars, k, before);
        let end = window_end(&chars, start, max_width);
        proof {
            if end < k {
                lemma_cols_split(s, start as int, end + 1, k as int);
            }
            crate::text::lemma_byte_len_ge_len(s);
        }
        let start_byte = byte_offset_exec(&chars, start);
        let shown = sub_chars(&chars, start, end);
        proof {
            assert(window_fits(s, k as int, before as int, max_width as int, start as int, end as int));
            assert(window_at(s, cursor_position as int, max_width as int, start as int, end as int));
        }
        (start_byte, from_chars(shown.as_slice()), width_before)
    }

    /// `visible_window`, where the text before the cursor is at most `u16::MAX` columns
    /// wide; nothing where it is wider (and the box is not empty).
    pub fn visible_window_within(text: &str, cursor_position: usize, max_width: u16) -> (r: Option<
        (usize, String, u16),
    >)
        requires
            cursor_position >= byte_len(text@) || is_boundary(text@, cursor_position as int),
        ensures
            r is None <==> (text@.len() > 0 && max_width > 0 && cols_sum(
                text@.take(cursor_char(text@, cursor_position as int)),
            ) > u16::MAX),
            r matches Some(w) ==> {
                &&& text@.len() == 0 || max_width == 0 ==> w.0 == 0 && w.1@.len() == 0 && w.2 == 0
                &&& w.2 <= max_width
                &&& text@.len() > 0 && max_width > 0 ==> exists|j: int, e: int|
                    #[trigger] window_at(text@, cursor_position as int, max_width as int, j, e) && w.0
                        == byte_offset(text@, j) && w.1@ == text@.subrange(j, e) && w.2 == cols_sum(
                        text@.subrange(j, cursor_char(text@, cursor_position as int)),
                    )
            },
    {
        let ghost s = text@;
        let total = str_byte_len(text);
        proof {
            crate::text::lemma_byte_len_ge_len(s);
            lemma_offset_full(s);
        }
        if total == 0 || max_width == 0 {
            return Some(Self::visible_window(text, cursor_position, max_width));
        }
        let chars = to_chars(text);
        let k = if cursor_position >= total {
            chars.len()
        } else {
            proof {
                lemma_boundary_bounds(s, cursor_position as int);
            }
            char_index_exec(&chars, cursor_position)
        };
        assert(k as int == cursor_char(s, cursor_position as int));
        match prefix_cols_checked(&chars, k) {
            None => None,
            Some(_) => Some(Self::visible_window(text, cursor_position, max_width)),
        }
    }
}

} // verus!
