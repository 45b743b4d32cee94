//! Where a key press goes: an open confirmation dialog takes it first, then an open
//! selection dialog, then an open input dialog; with no dialog open it goes to the key
//! bindings.

use vstd::prelude::*;
use crate::bindings::{EntryKeymap, KeyHit};
use crate::confirm_keys::ConfirmKeyAction;
use crate::input_keys::InputKeyAction;
use crate::keys::KeyEvent;
use crate::select_keys::SelectKeyAction;
use crate::state::State;
use crate::text::byte_len;

verus! {

/// What a key press led to, by the part of the screen that took it.
pub enum KeyOutcome<V, F> {
    Confirm(ConfirmKeyAction<F>),
    Select(SelectKeyAction<V, F>),
    Input(InputKeyAction<F>),
    /// The key went to the bindings: run this one, if any.
    Binding(Option<KeyHit>),
}

impl<T, F: Clone, P, M, V> State<T, F, P, M, V> {
    /// Handles a key press (`released` for a key let go). The dialogs take no released key;
    /// the bindings take every key, the hovered entry carrying the bindings `entry_keymaps`.
    /// Page up and page down in the selection dialog move by `page` options.
    pub fn handle_key(
        &mut self,
        key: KeyEvent,
        released: bool,
        entry_keymaps: &[EntryKeymap<F>],
        page: u16,
    ) -> (r: KeyOutcome<V, F>)
        requires
            old(self).wf(),
            old(self).select_dialog matches Some(d) ==> byte_len(d.filter_input@) + 4 <= isize::MAX,
            old(self).input_dialog matches Some(d) ==> byte_len(d.text@) + 4 <= isize::MAX,
        ensures
            final(self).wf(),
            old(self).confirm_dialog is Some ==> (r matches KeyOutcome::Confirm(a) && if released {
                a is Unhandled && *final(self) == *old(self)
            } else {
                old(self).confirm_key_result(key, *final(self), a)
            }),
            old(self).confirm_dialog is None && old(self).select_dialog is Some ==> (r matches KeyOutcome::Select(
                a,
            ) && if released {
                a is Unhandled && *final(self) == *old(self)
            } else {
                old(self).select_key_result(key, page, *final(self), a)
            }),
            old(self).confirm_dialog is None && old(self).select_dialog is None && old(self).input_dialog is Some
                ==> (r matches KeyOutcome::Input(a) && old(self).input_key_result(key, released, *final(self), a)),
            old(self).confirm_dialog is None && old(self).select_dialog is None && old(self).input_dialog is None
                ==> (r matches KeyOutcome::Binding(h) && (h, final(self).last_key_event_buffer@)
                == old(self).tap_outcome(key, entry_keymaps@) && final(self).same_navigation(old(self))
                && final(self).same_previews(old(self)) && final(self).current_mode == old(self).current_mode
                && final(self).keymap_config == old(self).keymap_config && final(self).input_dialog is None
                && final(self).confirm_dialog is None && final(self).select_dialog is None),
    {
        if self.confirm_dialog.is_some() {
            if released {
                return KeyOutcome::Confirm(ConfirmKeyAction::Unhandled);
            }
            return KeyOutcome::Confirm(self.handle_confirm_dialog_key(key));
        }
        if self.select_dialog.is_some() {
            if released {
                return KeyOutcome::Select(SelectKeyAction::Unhandled);
            }
            return KeyOutcome::Select(self.handle_select_dialog_key(key, page));
        }
        if self.input_dialog.is_some() {
            return KeyOutcome::Input(self.handle_input_dialog_key(key, released));
        }
        KeyOutcome::Binding(self.tap_key(key, entry_keymaps))
    }
}

} // verus!
