//! Keys typed while a selection dialog is open: up and `k`, down and `j` move the selection,
//! page up and page down move it by a page, home and end go to the first and last option,
//! enter chooses the selected option and escape closes the dialog with no choice; the
//! filter is edited with backspace, delete, left, right, control-u and typed characters,
//! and the options are filtered anew after each edit.

use vstd::prelude::*;
use crate::dialogs::{moved_selection, reselect, select_filter, SelectDialog};
use crate::edit::{insert_at, remove_at};
use crate::keys::{KeyCode, KeyEvent};
use crate::state::State;
use crate::text::{byte_len, byte_offset, char_index};

verus! {

/// What a key does in the selection dialog.
#[derive(Debug, Clone, Copy, PartialEq, Eq, Structural)]
pub enum SelectOp {
    Up,
    Down,
    PageUp,
    PageDown,
    First,
    Last,
    Choose,
    Cancel,
    Backspace,
    Delete,
    Left,
    Right,
    ClearBefore,
    Type(char),
    Ignore,
}

/// The operation of a key.
pub open spec fn select_op(key: KeyEvent) -> SelectOp {
    match key.code {
        KeyCode::Up => SelectOp::Up,
        KeyCode::Down => SelectOp::Down,
        KeyCode::PageUp => SelectOp::PageUp,
        KeyCode::PageDown => SelectOp::PageDown,
        KeyCode::Home => SelectOp::First,
        KeyCode::End => SelectOp::Last,
        KeyCode::Enter => SelectOp::Choose,
        KeyCode::Esc => SelectOp::Cancel,
        KeyCode::Backspace => SelectOp::Backspace,
        KeyCode::Delete => SelectOp::Delete,
        KeyCode::Left => SelectOp::Left,
        KeyCode::Right => SelectOp::Right,
        KeyCode::Char(c) => if c == 'k' {
            SelectOp::Up
        } else if c == 'j' {
            SelectOp::Down
        } else if c == 'u' && key.modifiers.control {
            SelectOp::ClearBefore
        } else {
            SelectOp::Type(c)
        },
        _ => SelectOp::Ignore,
    }
}

fn classify(key: KeyEvent) -> (r: SelectOp)
    ensures
        r == select_op(key),
{
    match key.code {
        KeyCode::Up => SelectOp::Up,
        KeyCode::Down => SelectOp::Down,
        KeyCode::PageUp => SelectOp::PageUp,
        KeyCode::PageDown => SelectOp::PageDown,
        KeyCode::Home => SelectOp::First,
        KeyCode::End => SelectOp::Last,
        KeyCode::Enter => SelectOp::Choose,
        KeyCode::Esc => SelectOp::Cancel,
        KeyCode::Backspace => SelectOp::Backspace,
        KeyCode::Delete => SelectOp::Delete,
        KeyCode::Left => SelectOp::Left,
        KeyCode::Right => SelectOp::Right,
        KeyCode::Char(c) => if c == 'k' {
            SelectOp::Up
        } else if c == 'j' {
            SelectOp::Down
        } else if c == 'u' && key.modifiers.control {
            SelectOp::ClearBefore
        } else {
            SelectOp::Type(c)
        },
        _ => SelectOp::Ignore,
    }
}

/// The selection after moving by `delta` among `count` shown options; unchanged when none
/// is shown.
pub open spec fn moved(selected: Option<usize>, count: nat, delta: int) -> Option<usize> {
    if count == 0 {
        selected
    } else {
        Some(
            moved_selection(
                match selected {
                    Some(i) => i as int,
                    None => 0,
                },
                count as int,
                delta,
            ) as usize,
        )
    }
}

/// The value of the selected option, if any.
pub open spec fn chosen_value<V, F>(d: SelectDialog<V, F>) -> Option<V> {
    match d.selected_index {
        Some(i) => Some(d.options@[d.filtered_options@[i as int] as int].value),
        None => None,
    }
}

/// The filter text and cursor after an editing operation; nothing for an operation that does
/// not edit the filter.
pub open spec fn edited_filter(text: Seq<char>, cursor: int, op: SelectOp) -> Option<(Seq<char>, int)> {
    let k = char_index(text, cursor);
    match op {
        SelectOp::Backspace => if cursor == 0 {
            Some((text, 0))
        } else {
            Some((remove_at(text, k - 1), byte_offset(text, k - 1) as int))
        },
        SelectOp::Delete => if cursor == byte_len(text) {
            Some((text, cursor))
        } else {
            Some((remove_at(text, k), cursor))
        },
        SelectOp::Type(c) => Some((insert_at(text, k, c), cursor + crate::text::utf8_width(c))),
        _ => None,
    }
}

/// What a key typed in the selection dialog leads to.
pub enum SelectKeyAction<V, F> {
    /// No dialog is open, or the dialog does not take the key.
    Unhandled,
    /// The dialog stays open, changed.
    Updated,
    /// The dialog closed: call the callback with the chosen value (nothing when cancelled or
    /// when no option was shown).
    Done(F, Option<V>),
}

impl<T, F, P, M, V> State<T, F, P, M, V> {
    /// What handling `key` in the selection dialog of `self` gives, page up and page down
    /// moving by `page` options: the state `new` and the action `r` (see `select_op`).
    pub open spec fn select_key_result(&self, key: KeyEvent, page: u16, new: Self, r: SelectKeyAction<V, F>) -> bool {
        &&& new.same_navigation(self)
        &&& new.same_previews(self)
        &&& new.current_mode == self.current_mode
        &&& new.input_dialog == self.input_dialog
        &&& new.confirm_dialog == self.confirm_dialog
        &&& self.select_dialog is None ==> r is Unhandled && new == *self
        &&& self.select_dialog matches Some(d) ==> match select_op(key) {
            SelectOp::Ignore => r is Unhandled && new == *self,
            SelectOp::Choose => r == SelectKeyAction::Done(d.on_selection, chosen_value(d))
                && new.select_dialog is None,
            SelectOp::Cancel => r == SelectKeyAction::<V, F>::Done(d.on_selection, None)
                && new.select_dialog is None,
            op => {
                &&& r is Updated
                &&& new.select_dialog matches Some(nd)
                &&& nd.options@ == d.options@
                &&& nd.prompt == d.prompt
                &&& nd.on_selection == d.on_selection
                &&& {
                    let n = d.filtered_options@.len();
                    let keeps_filter = nd.filter_input@ == d.filter_input@ && nd.cursor_position
                        == d.cursor_position && nd.filtered_options@ == d.filtered_options@;
                    match op {
                        SelectOp::Up => keeps_filter && nd.selected_index == moved(d.selected_index, n, -1),
                        SelectOp::Down => keeps_filter && nd.selected_index == moved(d.selected_index, n, 1),
                        SelectOp::PageUp => keeps_filter && nd.selected_index == moved(
                            d.selected_index,
                            n,
                            -(page as int),
                        ),
                        SelectOp::PageDown => keeps_filter && nd.selected_index == moved(
                            d.selected_index,
                            n,
                            page as int,
                        ),
                        SelectOp::First => keeps_filter && nd.selected_index == (if n == 0 {
                            d.selected_index
                        } else {
                            Some(0usize)
                        }),
                        SelectOp::Last => keeps_filter && nd.selected_index == (if n == 0 {
                            d.selected_index
                        } else {
                            Some((n - 1) as usize)
                        }),
                        SelectOp::Left => nd.filter_input@ == d.filter_input@ && nd.filtered_options@
                            == d.filtered_options@ && nd.selected_index == d.selected_index
                            && nd.cursor_position == (if d.cursor_position == 0 {
                            0
                        } else {
                            byte_offset(
                                d.filter_input@,
                                char_index(d.filter_input@, d.cursor_position as int) - 1,
                            ) as int
                        }),
                        SelectOp::Right => nd.filter_input@ == d.filter_input@ && nd.filtered_options@
                            == d.filtered_options@ && nd.selected_index == d.selected_index
                            && nd.cursor_position == (if d.cursor_position == byte_len(d.filter_input@) {
                            d.cursor_position as int
                        } else {
                            byte_offset(
                                d.filter_input@,
                                char_index(d.filter_input@, d.cursor_position as int) + 1,
                            ) as int
                        }),
                        SelectOp::ClearBefore => if d.cursor_position == 0 {
                            nd == d
                        } else {
                            &&& nd.filter_input@ == d.filter_input@.skip(
                                char_index(d.filter_input@, d.cursor_position as int),
                            )
                            &&& nd.cursor_position == 0
                            &&& nd.filtered_options@ == select_filter(d.options@, nd.filter_input@)
                            &&& nd.selected_index == reselect(
                                d.selected_index,
                                nd.filtered_options@.len(),
                            )
                        },
                        _ => match edited_filter(d.filter_input@, d.cursor_position as int, op) {
                            Some((text, cursor)) => {
                                &&& nd.filter_input@ == text
                                &&& nd.cursor_position == cursor
                                &&& nd.filtered_options@ == select_filter(d.options@, text)
                                &&& nd.selected_index == reselect(
                                    d.selected_index,
                                    nd.filtered_options@.len(),
                                )
                            },
                            None => false,
                        },
                    }
                }
            },
        }
    }

    /// Handles a key while the selection dialog is open (see `select_op`); page up and page
    /// down move by `page` options.
    pub fn handle_select_dialog_key(&mut self, key: KeyEvent, page: u16) -> (r: SelectKeyAction<V, F>)
        requires
            old(self).wf(),
            old(self).select_dialog matches Some(d) ==> byte_len(d.filter_input@) + 4 <= isize::MAX,
        ensures
            final(self).wf(),
            old(self).select_key_result(key, page, *final(self), r),
    {
        if self.select_dialog.is_none() {
            return SelectKeyAction::Unhandled;
        }
        let op = classify(key);
        match op {
            SelectOp::Ignore => {
                return SelectKeyAction::Unhandled;
            },
            SelectOp::Choose | SelectOp::Cancel => {
                let d = self.select_dialog.take().unwrap();
                let ghost gd = d;
                let on_selection = d.on_selection;
                let value = if op == SelectOp::Cancel {
                    None
                } else {
                    match d.selected_index {
                        Some(i) => {
                            let at = d.filtered_options[i];
                            let mut options = d.options;
                            Some(options.remove(at).value)
                        },
                        None => None,
                    }
                };
                assert(op is Choose ==> value == chosen_value(gd));
                return SelectKeyAction::Done(on_selection, value);
            },
            _ => {},
        }
        let mut d = self.select_dialog.take().unwrap();
        let ghost d0 = d;
        proof {
            crate::edit::lemma_boundary_bounds(d.filter_input@, d.cursor_position as int);
        }
        match op {
            SelectOp::Up => d.move_selection(-1),
            SelectOp::Down => d.move_selection(1),
            SelectOp::PageUp => d.move_selection(-(page as i32)),
            SelectOp::PageDown => d.move_selection(page as i32),
            SelectOp::First => d.select_first(),
            SelectOp::Last => d.select_last(),
            SelectOp::Left => d.cursor_left(),
            SelectOp::Right => d.cursor_right(),
            SelectOp::ClearBefore => d.delete_before_cursor_all(),
            SelectOp::Backspace => {
                d.delete_before_cursor();
                d.update_filtered_options();
            },
            SelectOp::Delete => {
                d.delete_at_cursor();
                d.update_filtered_options();
            },
            SelectOp::Type(c) => {
                proof {
                    crate::text::lemma_width_pos(c);
                }
                d.insert_char(c);
                d.update_filtered_options();
            },
            _ => {},
        }
        assert(d.options@ == d0.options@);
        self.select_dialog = Some(d);
        SelectKeyAction::Updated
    }
}

} // verus!
