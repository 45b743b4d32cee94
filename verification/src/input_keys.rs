//! Keys typed while the input dialog is open: bindings of input mode come first, then the
//! dialog's own editing keys (backspace, left, right and printable characters).

use vstd::prelude::*;
use crate::bindings::{EntryKeymap, KeyHit};
use crate::edit::{insert_at, remove_at};
use crate::keys::{KeyCode, KeyEvent};
use crate::state::State;
use crate::text::{byte_len, byte_offset, char_index, utf8_width};

verus! {

/// What a key typed in the input dialog leads to.
pub enum InputKeyAction<F> {
    /// The dialog does not take the key.
    Unhandled,
    /// Run this binding.
    Run(KeyHit),
    /// The key was kept as the start of a longer binding.
    Pending,
    /// The text changed: call the callback with the new text.
    Changed(String, F),
    /// The cursor moved.
    Moved,
}

/// The text and cursor after an editing key, or nothing for a key the dialog does not edit
/// with.
pub open spec fn edit_by_key(text: Seq<char>, cursor: int, code: KeyCode) -> Option<(Seq<char>, int)> {
    let k = char_index(text, cursor);
    match code {
        KeyCode::Backspace => if cursor == 0 {
            Some((text, 0))
        } else {
            Some((remove_at(text, k - 1), byte_offset(text, k - 1) as int))
        },
        KeyCode::Left => if cursor == 0 {
            Some((text, 0))
        } else {
            Some((text, byte_offset(text, k - 1) as int))
        },
        KeyCode::Right => if cursor == byte_len(text) {
            Some((text, cursor))
        } else {
            Some((text, byte_offset(text, k + 1) as int))
        },
        KeyCode::Char(c) => Some((insert_at(text, k, c), cursor + utf8_width(c))),
        _ => None,
    }
}

impl<T, F: Clone, P, M, V> State<T, F, P, M, V> {
    /// What handling `key` (`released` for a key let go) in the input dialog of `self` gives:
    /// the state `new` and the action `r`. A released key, or any key with no dialog open, is
    /// not taken. Otherwise the key goes to the bindings of the current mode first; only a
    /// key that neither runs nor continues a binding edits the dialog.
    pub open spec fn input_key_result(&self, key: KeyEvent, released: bool, new: Self, r: InputKeyAction<F>) -> bool {
        &&& released || self.input_dialog is None ==> r is Unhandled && new == *self
        &&& !released && self.input_dialog is Some ==> ({
            let d = self.input_dialog->Some_0;
            let (hit, buf) = self.tap_outcome(key, Seq::empty());
            &&& new.last_key_event_buffer@ == buf
            &&& new.current_mode == self.current_mode
            &&& new.keymap_config == self.keymap_config
            &&& new.same_navigation(self)
            &&& new.same_previews(self)
            &&& new.input_dialog matches Some(nd) && nd.previous_mode == d.previous_mode
            &&& (hit matches Some(h) ==> r == InputKeyAction::<F>::Run(h) && new.input_dialog
                == self.input_dialog)
            &&& (hit is None && buf.len() > 0 ==> r is Pending && new.input_dialog
                == self.input_dialog)
            &&& (hit is None && buf.len() == 0 ==> match edit_by_key(
                d.text@,
                d.cursor_position as int,
                key.code,
            ) {
                None => r is Unhandled && new.input_dialog == self.input_dialog,
                Some((text, cursor)) => {
                    let nd = new.input_dialog->Some_0;
                    &&& nd.text@ == text
                    &&& nd.cursor_position == cursor
                    &&& (key.code is Left || key.code is Right) ==> r is Moved
                    &&& (key.code is Backspace || key.code is Char) ==> (r matches InputKeyAction::Changed(
                        s,
                        _,
                    ) && s@ == text)
                },
            })
        })
    }

    /// Handles a key while the input dialog is open (see `input_key_result`).
    pub fn handle_input_dialog_key(&mut self, key: KeyEvent, released: bool) -> (r: InputKeyAction<F>)
        requires
            old(self).wf(),
            old(self).input_dialog matches Some(d) ==> byte_len(d.text@) + 4 <= isize::MAX,
        ensures
            final(self).wf(),
            old(self).input_key_result(key, released, *final(self), r),
    {
        if released || self.input_dialog.is_none() {
            return InputKeyAction::Unhandled;
        }
        let none: Vec<EntryKeymap<F>> = Vec::new();
        proof {
            assert(none@ =~= Seq::<EntryKeymap<F>>::empty());
        }
        match self.tap_key(key, none.as_slice()) {
            Some(hit) => {
                return InputKeyAction::Run(hit);
            },
            None => {},
        }
        if self.last_key_event_buffer.len() > 0 {
            return InputKeyAction::Pending;
        }
        let ghost d = self.input_dialog->Some_0;
        proof {
            crate::edit::lemma_boundary_bounds(d.text@, d.cursor_position as int);
        }
        match key.code {
            KeyCode::Backspace => match self.input_dialog_backspace() {
                Some((text, on_change)) => InputKeyAction::Changed(text, on_change),
                None => InputKeyAction::Unhandled,
            },
            KeyCode::Left => {
                self.input_dialog_cursor_left();
                InputKeyAction::Moved
            },
            KeyCode::Right => {
                self.input_dialog_cursor_right();
                InputKeyAction::Moved
            },
            KeyCode::Char(c) => {
                proof {
                    crate::text::lemma_width_pos(c);
                }
                match self.input_dialog_insert_char(c) {
                    Some((text, on_change)) => InputKeyAction::Changed(text, on_change),
                    None => InputKeyAction::Unhandled,
                }
            },
            _ => InputKeyAction::Unhandled,
        }
    }
}

} // verus!
