//! The modal dialogs: a yes/no confirmation, a filterable selection list and a one-line
//! text input.

use vstd::prelude::*;
use crate::edit::{
    backspace_at, char_index_exec, clear_before_at, cursor_left_at, cursor_right_at,
    cursor_to_end_at, delete_at, edit_ok, insert_at, insert_char_at, lemma_zero_boundary,
    remove_at,
};
use crate::keymap::Mode;
use crate::page::{contains_sub, str_contains};
use crate::text::{byte_len, byte_offset, char_index, lowercase, to_chars, to_lowercase, utf8_width};

verus! {

broadcast use vstd::seq_lib::group_seq_properties;

/// The button highlighted in a confirmation dialog.
#[derive(Debug, Clone, Copy, PartialEq, Eq, Structural)]
pub enum ConfirmButton {
    Yes,
    No,
}

impl ConfirmButton {
    /// The other button.
    pub fn toggle(&self) -> (b: ConfirmButton)
        ensures
            b != *self,
    {
        match self {
            ConfirmButton::Yes => ConfirmButton::No,
            ConfirmButton::No => ConfirmButton::Yes,
        }
    }
}

/// A yes/no question; `on_confirm` runs on yes, `on_cancel` (if any) on no.
pub struct ConfirmDialog<F> {
    pub title: Option<String>,
    pub prompt: String,
    pub on_confirm: F,
    pub on_cancel: Option<F>,
    pub selected_button: ConfirmButton,
}

impl<F> ConfirmDialog<F> {
    /// A dialog with "yes" highlighted.
    pub fn new(title: Option<String>, prompt: String, on_confirm: F, on_cancel: Option<F>) -> (d:
        ConfirmDialog<F>)
        ensures
            d.title == title,
            d.prompt == prompt,
            d.on_confirm == on_confirm,
            d.on_cancel == on_cancel,
            d.selected_button == ConfirmButton::Yes,
    {
        ConfirmDialog { title, prompt, on_confirm, on_cancel, selected_button: ConfirmButton::Yes }
    }
}

/// One choice of a selection dialog: `value` is handed back when it is chosen, `display` is
/// the plain text it is shown and filtered by.
pub struct SelectOption<V> {
    pub value: V,
    pub display: String,
}

/// The case-insensitive selection filter: the option's lowercased text contains the
/// lowercased filter.
pub open spec fn option_matches<V>(o: SelectOption<V>, filter: Seq<char>) -> bool {
    contains_sub(lowercase(o.display@), lowercase(filter))
}

/// Positions, in order, of the options that `filter` keeps (all of them for an empty filter).
pub open spec fn select_filter<V>(options: Seq<SelectOption<V>>, filter: Seq<char>) -> Seq<usize>
    decreases options.len(),
{
    if options.len() == 0 {
        Seq::empty()
    } else {
        let rest = select_filter(options.drop_last(), filter);
        if filter.len() == 0 || option_matches(options.last(), filter) {
            rest.push((options.len() - 1) as usize)
        } else {
            rest
        }
    }
}

pub proof fn lemma_select_filter_bound<V>(options: Seq<SelectOption<V>>, filter: Seq<char>)
    requires
        options.len() <= usize::MAX,
    ensures
        select_filter(options, filter).len() <= options.len(),
        forall|i: int|
            0 <= i < select_filter(options, filter).len() ==> #[trigger] select_filter(
                options,
                filter,
            )[i] < options.len(),
        filter.len() == 0 ==> select_filter(options, filter).len() == options.len(),
        filter.len() == 0 ==> forall|i: int|
            0 <= i < options.len() ==> #[trigger] select_filter(options, filter)[i] == i,
    decreases options.len(),
{
    if options.len() > 0 {
        lemma_select_filter_bound(options.drop_last(), filter);
    }
}

/// Where a selection lands after the options are filtered anew: kept while still in range,
/// else the first option; none when nothing is shown.
pub open spec fn reselect(old: Option<usize>, count: nat) -> Option<usize> {
    if count == 0 {
        None
    } else {
        match old {
            Some(i) => if i < count {
                Some(i)
            } else {
                Some(0usize)
            },
            None => Some(0usize),
        }
    }
}

/// Where a selection at `current` among `count` shown options moves by `delta`: past the
/// end it stops at the last option, unless it already was on the last one, then it wraps to
/// the first; before the start likewise.
pub open spec fn moved_selection(current: int, count: int, delta: int) -> int {
    if delta > 0 {
        if current + delta >= count && current == count - 1 {
            0
        } else if current + delta < count - 1 {
            current + delta
        } else {
            count - 1
        }
    } else {
        if -delta > current && current == 0 {
            count - 1
        } else if current + delta > 0 {
            current + delta
        } else {
            0
        }
    }
}

/// The options that a plugin gives a selection dialog: at least one is needed.
pub fn require_options<V>(options: Vec<SelectOption<V>>) -> (r: Result<Vec<SelectOption<V>>, &'static str>)
    ensures
        options@.len() == 0 ==> (r matches Err(e) && e@ == "Options cannot be empty"@),
        options@.len() > 0 ==> (r matches Ok(o) && o@ == options@),
{
    if options.len() == 0 {
        Err("Options cannot be empty")
    } else {
        Ok(options)
    }
}

/// A list of options narrowed by a typed filter, one of which is selected.
pub struct SelectDialog<V, F> {
    pub prompt: Option<String>,
    pub options: Vec<SelectOption<V>>,
    /// Positions in `options` of the options the filter keeps.
    pub filtered_options: Vec<usize>,
    /// Selected position within `filtered_options`.
    pub selected_index: Option<usize>,
    pub filter_input: String,
    pub cursor_position: usize,
    pub cursor_x: u16,
    pub cursor_y: u16,
    pub on_selection: F,
}

impl<V, F> SelectDialog<V, F> {
    /// The filter input is editable and the selection points into the shown options.
    pub open spec fn wf(&self) -> bool {
        &&& edit_ok(self.filter_input@, self.cursor_position as int)
        &&& self.selected_index matches Some(i) ==> i < self.filtered_options@.len()
        &&& forall|i: int|
            0 <= i < self.filtered_options@.len() ==> #[trigger] self.filtered_options@[i]
                < self.options@.len()
    }

    /// A dialog showing every option, the first one selected.
    pub fn new(prompt: Option<String>, options: Vec<SelectOption<V>>, on_selection: F) -> (d:
        SelectDialog<V, F>)
        ensures
            d.wf(),
            d.prompt == prompt,
            d.options@ == options@,
            d.on_selection == on_selection,
            d.filter_input@.len() == 0,
            d.cursor_position == 0,
            d.filtered_options@ == select_filter(options@, Seq::<char>::empty()),
            d.selected_index == reselect(Some(0usize), options@.len()),
    {
        let mut d = SelectDialog {
            prompt,
            options,
            filtered_options: Vec::new(),
            selected_index: Some(0),
            filter_input: String::new(),
            cursor_position: 0,
            cursor_x: 0,
            cursor_y: 0,
            on_selection,
        };
        proof {
            lemma_zero_boundary(d.filter_input@);
        }
        d.update_filtered_options();
        d
    }

    /// The options shown under the current filter, in order.
    pub fn get_filtered_options(&self) -> (r: Vec<&SelectOption<V>>)
        requires
            self.wf(),
        ensures
            r@.len() == self.filtered_options@.len(),
            forall|i: int|
                0 <= i < r@.len() ==> *#[trigger] r@[i] == self.options@[self.filtered_options@[i] as int],
    {
        let mut r: Vec<&SelectOption<V>> = Vec::new();
        let mut i: usize = 0;
        while i < self.filtered_options.len()
            invariant
                self.wf(),
                i <= self.filtered_options@.len(),
                r@.len() == i,
                forall|k: int|
                    0 <= k < i ==> *#[trigger] r@[k] == self.options@[self.filtered_options@[k] as int],
            decreases self.filtered_options@.len() - i,
        {
            r.push(&self.options[self.filtered_options[i]]);
            i += 1;
        }
        r
    }

    /// The selected option, if any.
    pub fn selected_option(&self) -> (r: Option<&SelectOption<V>>)
        requires
            self.wf(),
        ensures
            match self.selected_index {
                Some(i) => r == Some(&self.options@[self.filtered_options@[i as int] as int]),
                None => r is None,
            },
    {
        match self.selected_index {
            Some(i) => Some(&self.options[self.filtered_options[i]]),
            None => None,
        }
    }

    /// Recomputes the shown options from the filter; the selection stays where it was when
    /// still in range, else moves to the first option.
    pub fn update_filtered_options(&mut self)
        requires
            edit_ok(old(self).filter_input@, old(self).cursor_position as int),
        ensures
            final(self).wf(),
            final(self).filtered_options@ == select_filter(old(self).options@, old(self).filter_input@),
            final(self).selected_index == reselect(
                old(self).selected_index,
                final(self).filtered_options@.len(),
            ),
            final(self).options@ == old(self).options@,
            final(self).filter_input@ == old(self).filter_input@,
            final(self).cursor_position == old(self).cursor_position,
            final(self).prompt == old(self).prompt,
            final(self).on_selection == old(self).on_selection,
    {
        let n = self.options.len();
        let empty_filter = self.filter_input.as_str().is_empty();
        let lowered = to_lowercase(self.filter_input.as_str());
        let f = to_chars(lowered.as_str());
        let mut out: Vec<usize> = Vec::new();
        let mut i: usize = 0;
        while i < n
            invariant
                n == self.options@.len(),
                i <= n,
                f@ == lowercase(self.filter_input@),
                empty_filter == (self.filter_input@.len() == 0),
                out@ == select_filter(self.options@.take(i as int), self.filter_input@),
            decreases n - i,
        {
            let keep = if empty_filter {
                true
            } else {
                let d = to_lowercase(self.options[i].display.as_str());
                let dc = to_chars(d.as_str());
                str_contains(&dc, &f)
            };
            proof {
                let pre = self.options@.take(i as int);
                let post = self.options@.take(i + 1);
                assert(post.drop_last() =~= pre);
                assert(post.last() == self.options@[i as int]);
            }
            if keep {
                out.push(i);
            }
            i += 1;
        }
        proof {
            assert(self.options@.take(n as int) =~= self.options@);
            lemma_select_filter_bound(self.options@, self.filter_input@);
        }
        self.filtered_options = out;
        let count = self.filtered_options.len();
        if count == 0 {
            self.selected_index = None;
        } else {
            let keep_old = match self.selected_index {
                Some(i) => i < count,
                None => false,
            };
            if !keep_old {
                self.selected_index = Some(0);
            }
        }
    }

    /// Moves the selection by `delta` shown options (see `moved_selection`).
    pub fn move_selection(&mut self, delta: i32)
        requires
            old(self).wf(),
        ensures
            final(self).wf(),
            old(self).filtered_options@.len() == 0 ==> *final(self) == *old(self),
            old(self).filtered_options@.len() > 0 ==> final(self).selected_index == Some(
                moved_selection(
                    match old(self).selected_index {
                        Some(i) => i as int,
                        None => 0,
                    },
                    old(self).filtered_options@.len() as int,
                    delta as int,
                ) as usize,
            ),
            final(self).filtered_options@ == old(self).filtered_options@,
            final(self).options@ == old(self).options@,
            final(self).filter_input@ == old(self).filter_input@,
            final(self).cursor_position == old(self).cursor_position,
            final(self).prompt == old(self).prompt,
            final(self).on_selection == old(self).on_selection,
    {
        let count = self.filtered_options.len();
        if count == 0 {
            return;
        }
        let current = match self.selected_index {
            Some(i) => i,
            None => 0,
        };
        let new = if delta > 0 {
            let d = delta as usize;
            if d >= count - current {
                if current == count - 1 {
                    0
                } else {
                    count - 1
                }
            } else if current + d < count - 1 {
                current + d
            } else {
                count - 1
            }
        } else {
            let ad: u64 = if delta == i32::MIN {
                2147483648u64
            } else {
                (-delta) as u64
            };
            if ad > current as u64 && current == 0 {
                count - 1
            } else if ad < current as u64 {
                current - ad as usize
            } else {
                0
            }
        };
        self.selected_index = Some(new);
    }

    /// Selects the first shown option, if any.
    pub fn select_first(&mut self)
        requires
            old(self).wf(),
        ensures
            final(self).wf(),
            final(self).selected_index == (if old(self).filtered_options@.len() == 0 {
                old(self).selected_index
            } else {
                Some(0usize)
            }),
            final(self).filtered_options@ == old(self).filtered_options@,
            final(self).options@ == old(self).options@,
            final(self).filter_input@ == old(self).filter_input@,
            final(self).cursor_position == old(self).cursor_position,
            final(self).prompt == old(self).prompt,
            final(self).on_selection == old(self).on_selection,
    {
        if self.filtered_options.len() > 0 {
            self.selected_index = Some(0);
        }
    }

    /// Selects the last shown option, if any.
    pub fn select_last(&mut self)
        requires
            old(self).wf(),
        ensures
            final(self).wf(),
            final(self).selected_index == (if old(self).filtered_options@.len() == 0 {
                old(self).selected_index
            } else {
                Some((old(self).filtered_options@.len() - 1) as usize)
            }),
            final(self).filtered_options@ == old(self).filtered_options@,
            final(self).options@ == old(self).options@,
            final(self).filter_input@ == old(self).filter_input@,
            final(self).cursor_position == old(self).cursor_position,
            final(self).prompt == old(self).prompt,
            final(self).on_selection == old(self).on_selection,
    {
        let count = self.filtered_options.len();
        if count > 0 {
            self.selected_index = Some(count - 1);
        }
    }

    /// Moves the filter cursor to the start.
    pub fn cursor_to_start(&mut self)
        requires
            old(self).wf(),
        ensures
            final(self).wf(),
            final(self).cursor_position == 0,
            final(self).filter_input@ == old(self).filter_input@,
            final(self).filtered_options@ == old(self).filtered_options@,
            final(self).selected_index == old(self).selected_index,
            final(self).options@ == old(self).options@,
            final(self).prompt == old(self).prompt,
            final(self).on_selection == old(self).on_selection,
    {
        proof {
            lemma_zero_boundary(self.filter_input@);
        }
        self.cursor_position = 0;
    }

    /// Moves the filter cursor to the end.
    pub fn cursor_to_end(&mut self)
        requires
            old(self).wf(),
        ensures
            final(self).wf(),
            final(self).cursor_position == byte_len(old(self).filter_input@),
            final(self).filter_input@ == old(self).filter_input@,
            final(self).filtered_options@ == old(self).filtered_options@,
            final(self).selected_index == old(self).selected_index,
            final(self).options@ == old(self).options@,
            final(self).prompt == old(self).prompt,
            final(self).on_selection == old(self).on_selection,
    {
        cursor_to_end_at(&self.filter_input, &mut self.cursor_position);
    }

    /// Moves the filter cursor one character left.
    pub fn cursor_left(&mut self)
        requires
            old(self).wf(),
        ensures
            final(self).wf(),
            old(self).cursor_position == 0 ==> final(self).cursor_position == 0,
            old(self).cursor_position > 0 ==> final(self).cursor_position == byte_offset(
                old(self).filter_input@,
                char_index(old(self).filter_input@, old(self).cursor_position as int) - 1,
            ),
            final(self).filter_input@ == old(self).filter_input@,
            final(self).filtered_options@ == old(self).filtered_options@,
            final(self).selected_index == old(self).selected_index,
            final(self).options@ == old(self).options@,
            final(self).prompt == old(self).prompt,
            final(self).on_selection == old(self).on_selection,
    {
        cursor_left_at(&self.filter_input, &mut self.cursor_position);
    }

    /// Moves the filter cursor one character right.
    pub fn cursor_right(&mut self)
        requires
            old(self).wf(),
        ensures
            final(self).wf(),
            old(self).cursor_position == byte_len(old(self).filter_input@) ==> final(self).cursor_position
                == old(self).cursor_position,
            old(self).cursor_position < byte_len(old(self).filter_input@) ==> final(self).cursor_position
                == byte_offset(
                old(self).filter_input@,
                char_index(old(self).filter_input@, old(self).cursor_position as int) + 1,
            ),
            final(self).filter_input@ == old(self).filter_input@,
            final(self).filtered_options@ == old(self).filtered_options@,
            final(self).selected_index == old(self).selected_index,
            final(self).options@ == old(self).options@,
            final(self).prompt == old(self).prompt,
            final(self).on_selection == old(self).on_selection,
    {
        cursor_right_at(&self.filter_input, &mut self.cursor_position);
    }

    /// Types `c` at the filter cursor.
    pub fn insert_char(&mut self, c: char)
        requires
            old(self).wf(),
            byte_len(old(self).filter_input@) + utf8_width(c) <= isize::MAX,
        ensures
            final(self).wf(),
            final(self).filter_input@ == insert_at(
                old(self).filter_input@,
                char_index(old(self).filter_input@, old(self).cursor_position as int),
                c,
            ),
            final(self).cursor_position == old(self).cursor_position + utf8_width(c),
            final(self).filtered_options@ == old(self).filtered_options@,
            final(self).selected_index == old(self).selected_index,
            final(self).options@ == old(self).options@,
            final(self).prompt == old(self).prompt,
            final(self).on_selection == old(self).on_selection,
    {
        insert_char_at(&mut self.filter_input, &mut self.cursor_position, c);
    }

    /// Deletes the character before the filter cursor.
    pub fn delete_before_cursor(&mut self)
        requires
            old(self).wf(),
        ensures
            final(self).wf(),
            old(self).cursor_position == 0 ==> final(self).filter_input@ == old(self).filter_input@
                && final(self).cursor_position == 0,
            old(self).cursor_position > 0 ==> ({
                let k = char_index(old(self).filter_input@, old(self).cursor_position as int);
                &&& final(self).filter_input@ == remove_at(old(self).filter_input@, k - 1)
                &&& final(self).cursor_position == byte_offset(old(self).filter_input@, k - 1)
            }),
            final(self).filtered_options@ == old(self).filtered_options@,
            final(self).selected_index == old(self).selected_index,
            final(self).options@ == old(self).options@,
            final(self).prompt == old(self).prompt,
            final(self).on_selection == old(self).on_selection,
    {
        backspace_at(&mut self.filter_input, &mut self.cursor_position);
    }

    /// Deletes the character at the filter cursor.
    pub fn delete_at_cursor(&mut self)
        requires
            old(self).wf(),
        ensures
            final(self).wf(),
            final(self).cursor_position == old(self).cursor_position,
            old(self).cursor_position == byte_len(old(self).filter_input@) ==> final(self).filter_input@
                == old(self).filter_input@,
            old(self).cursor_position < byte_len(old(self).filter_input@) ==> final(self).filter_input@
                == remove_at(
                old(self).filter_input@,
                char_index(old(self).filter_input@, old(self).cursor_position as int),
            ),
            final(self).filtered_options@ == old(self).filtered_options@,
            final(self).selected_index == old(self).selected_index,
            final(self).options@ == old(self).options@,
            final(self).prompt == old(self).prompt,
            final(self).on_selection == old(self).on_selection,
    {
        delete_at(&mut self.filter_input, &mut self.cursor_position);
    }

    /// Deletes everything before the filter cursor and filters anew (when anything was
    /// deleted).
    pub fn delete_before_cursor_all(&mut self)
        requires
            old(self).wf(),
        ensures
            final(self).wf(),
            old(self).cursor_position == 0 ==> *final(self) == *old(self),
            old(self).cursor_position > 0 ==> {
                &&& final(self).filter_input@ == old(self).filter_input@.skip(
                    char_index(old(self).filter_input@, old(self).cursor_position as int),
                )
                &&& final(self).cursor_position == 0
                &&& final(self).filtered_options@ == select_filter(
                    old(self).options@,
                    final(self).filter_input@,
                )
                &&& final(self).selected_index == reselect(
                    old(self).selected_index,
                    final(self).filtered_options@.len(),
                )
            },
            final(self).options@ == old(self).options@,
            final(self).prompt == old(self).prompt,
            final(self).on_selection == old(self).on_selection,
    {
        if self.cursor_position > 0 {
            clear_before_at(&mut self.filter_input, &mut self.cursor_position);
            self.update_filtered_options();
        }
    }
}

/// The one-line text input dialog. `previous_mode` is restored when it closes.
pub struct InputDialog<F> {
    pub previous_mode: Mode,
    pub prompt: String,
    pub placeholder: String,
    pub text: String,
    pub cursor_position: usize,
    pub cursor_x: u16,
    pub cursor_y: u16,
    pub on_submit: F,
    pub on_cancel: F,
    pub on_change: F,
}

impl<F> InputDialog<F> {
    /// The cursor is a character boundary of the text.
    pub open spec fn wf(&self) -> bool {
        edit_ok(self.text@, self.cursor_position as int)
    }

    /// A dialog holding `value`, with the cursor at its end.
    pub fn new(
        previous_mode: Mode,
        prompt: String,
        placeholder: String,
        value: String,
        on_submit: F,
        on_cancel: F,
        on_change: F,
    ) -> (d: InputDialog<F>)
        requires
            byte_len(value@) <= isize::MAX,
        ensures
            d.wf(),
            d.previous_mode == previous_mode,
            d.prompt == prompt,
            d.placeholder == placeholder,
            d.text@ == value@,
            d.cursor_position == byte_len(value@),
            d.on_submit == on_submit,
            d.on_cancel == on_cancel,
            d.on_change == on_change,
    {
        let mut cursor_position: usize = 0;
        cursor_to_end_at(&value, &mut cursor_position);
        InputDialog {
            previous_mode,
            prompt,
            placeholder,
            text: value,
            cursor_position,
            cursor_x: 0,
            cursor_y: 0,
            on_submit,
            on_cancel,
            on_change,
        }
    }

    /// Types `c` at the cursor.
    pub fn insert_char(&mut self, c: char)
        requires
            old(self).wf(),
            byte_len(old(self).text@) + utf8_width(c) <= isize::MAX,
        ensures
            final(self).wf(),
            final(self).text@ == insert_at(
                old(self).text@,
                char_index(old(self).text@, old(self).cursor_position as int),
                c,
            ),
            final(self).cursor_position == old(self).cursor_position + utf8_width(c),
            final(self).previous_mode == old(self).previous_mode,
    {
        insert_char_at(&mut self.text, &mut self.cursor_position, c);
    }

    /// Deletes the character before the cursor.
    pub fn backspace(&mut self)
        requires
            old(self).wf(),
        ensures
            final(self).wf(),
            old(self).cursor_position == 0 ==> final(self).text@ == old(self).text@
                && final(self).cursor_position == 0,
            old(self).cursor_position > 0 ==> ({
                let k = char_index(old(self).text@, old(self).cursor_position as int);
                &&& final(self).text@ == remove_at(old(self).text@, k - 1)
                &&& final(self).cursor_position == byte_offset(old(self).text@, k - 1)
            }),
            final(self).previous_mode == old(self).previous_mode,
    {
        backspace_at(&mut self.text, &mut self.cursor_position);
    }

    /// Deletes the character at the cursor.
    pub fn delete(&mut self)
        requires
            old(self).wf(),
        ensures
            final(self).wf(),
            final(self).cursor_position == old(self).cursor_position,
            old(self).cursor_position == byte_len(old(self).text@) ==> final(self).text@ == old(
                self,
            ).text@,
            old(self).cursor_position < byte_len(old(self).text@) ==> final(self).text@ == remove_at(
                old(self).text@,
                char_index(old(self).text@, old(self).cursor_position as int),
            ),
            final(self).previous_mode == old(self).previous_mode,
    {
        delete_at(&mut self.text, &mut self.cursor_position);
    }

    /// Empties the text.
    pub fn clear(&mut self)
        requires
            old(self).wf(),
        ensures
            final(self).wf(),
            final(self).text@.len() == 0,
            final(self).cursor_position == 0,
            final(self).previous_mode == old(self).previous_mode,
    {
        self.text = String::new();
        self.cursor_position = 0;
        proof {
            lemma_zero_boundary(self.text@);
        }
    }

    /// Moves the cursor one character left.
    pub fn cursor_left(&mut self)
        requires
            old(self).wf(),
        ensures
            final(self).wf(),
            final(self).text@ == old(self).text@,
            old(self).cursor_position == 0 ==> final(self).cursor_position == 0,
            old(self).cursor_position > 0 ==> final(self).cursor_position == byte_offset(
                old(self).text@,
                char_index(old(self).text@, old(self).cursor_position as int) - 1,
            ),
            final(self).previous_mode == old(self).previous_mode,
    {
        cursor_left_at(&self.text, &mut self.cursor_position);
    }

    /// Moves the cursor one character right.
    pub fn cursor_right(&mut self)
        requires
            old(self).wf(),
        ensures
            final(self).wf(),
            final(self).text@ == old(self).text@,
            old(self).cursor_position == byte_len(old(self).text@) ==> final(self).cursor_position
                == old(self).cursor_position,
            old(self).cursor_position < byte_len(old(self).text@) ==> final(self).cursor_position
                == byte_offset(
                old(self).text@,
                char_index(old(self).text@, old(self).cursor_position as int) + 1,
            ),
            final(self).previous_mode == old(self).previous_mode,
    {
        cursor_right_at(&self.text, &mut self.cursor_position);
    }

    /// Moves the cursor to the start.
    pub fn cursor_to_start(&mut self)
        requires
            old(self).wf(),
        ensures
            final(self).wf(),
            final(self).text@ == old(self).text@,
            final(self).cursor_position == 0,
            final(self).previous_mode == old(self).previous_mode,
    {
        proof {
            lemma_zero_boundary(self.text@);
        }
        self.cursor_position = 0;
    }

    /// Moves the cursor to the end.
    pub fn cursor_to_end(&mut self)
        requires
            old(self).wf(),
        ensures
            final(self).wf(),
            final(self).text@ == old(self).text@,
            final(self).cursor_position == byte_len(old(self).text@),
            final(self).previous_mode == old(self).previous_mode,
    {
        cursor_to_end_at(&self.text, &mut self.cursor_position);
    }

    /// Deletes everything before the cursor; tells whether the text changed.
    pub fn clear_before_cursor(&mut self) -> (changed: bool)
        requires
            old(self).wf(),
        ensures
            final(self).wf(),
            old(self).cursor_position == 0 ==> final(self).text@ == old(self).text@
                && final(self).cursor_position == 0,
            old(self).cursor_position > 0 ==> final(self).text@ == old(self).text@.skip(
                char_index(old(self).text@, old(self).cursor_position as int),
            ) && final(self).cursor_position == 0,
            changed == (final(self).text@ != old(self).text@),
            final(self).previous_mode == old(self).previous_mode,
    {
        let ghost before = self.text@;
        let had = self.cursor_position > 0;
        clear_before_at(&mut self.text, &mut self.cursor_position);
        if had {
            proof {
                let k = char_index(before, old(self).cursor_position as int);
                crate::edit::lemma_boundary_bounds(before, old(self).cursor_position as int);
                assert(k > 0);
                assert(self.text@.len() == before.len() - k);
            }
            true
        } else {
            false
        }
    }
}

} // verus!
