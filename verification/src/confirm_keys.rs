//! Keys typed while a confirmation dialog is open: the arrow keys, tab and `h`/`l` move
//! between the two buttons; enter answers with the highlighted button, `y` answers yes, `n`
//! and escape answer no.

use vstd::prelude::*;
use crate::dialogs::ConfirmButton;
use crate::keys::{KeyCode, KeyEvent};
use crate::state::State;

verus! {

/// What a key typed in the confirmation dialog leads to.
pub enum ConfirmKeyAction<F> {
    /// No dialog is open, or the dialog does not take the key.
    Unhandled,
    /// The highlighted button changed.
    Toggled,
    /// The dialog closed with yes: run this callback.
    Confirm(F),
    /// The dialog closed with no: run this callback, if there is one.
    Cancel(Option<F>),
}

/// The keys that move between the buttons.
pub open spec fn toggles_button(code: KeyCode) -> bool {
    code is Left || code is Right || code is Tab || code is BackTab || code == KeyCode::Char('h')
        || code == KeyCode::Char('l')
}

/// The answer that a key gives, with `selected` highlighted; nothing for a key that does not
/// answer.
pub open spec fn answer_of(code: KeyCode, selected: ConfirmButton) -> Option<ConfirmButton> {
    match code {
        KeyCode::Enter => Some(selected),
        KeyCode::Char('y') => Some(ConfirmButton::Yes),
        KeyCode::Char('n') => Some(ConfirmButton::No),
        KeyCode::Esc => Some(ConfirmButton::No),
        _ => None,
    }
}

fn toggles(code: KeyCode) -> (r: bool)
    ensures
        r == toggles_button(code),
{
    match code {
        KeyCode::Left | KeyCode::Right | KeyCode::Tab | KeyCode::BackTab => true,
        KeyCode::Char(c) => c == 'h' || c == 'l',
        _ => false,
    }
}

fn answer(code: KeyCode, selected: ConfirmButton) -> (r: Option<ConfirmButton>)
    ensures
        r == answer_of(code, selected),
{
    match code {
        KeyCode::Enter => Some(selected),
        KeyCode::Esc => Some(ConfirmButton::No),
        KeyCode::Char(c) => if c == 'y' {
            Some(ConfirmButton::Yes)
        } else if c == 'n' {
            Some(ConfirmButton::No)
        } else {
            None
        },
        _ => None,
    }
}

impl<T, F, P, M, V> State<T, F, P, M, V> {
    /// What handling `key` in the confirmation dialog of `self` gives: the state `new` and the
    /// action `r`. A key that moves between the buttons toggles the highlighted one; a key
    /// that answers closes the dialog and hands back the callback of the answer; any other
    /// key, or a key with no dialog open, changes nothing.
    pub open spec fn confirm_key_result(&self, key: KeyEvent, new: Self, r: ConfirmKeyAction<F>) -> bool {
        &&& new.same_navigation(self)
        &&& new.same_previews(self)
        &&& new.current_mode == self.current_mode
        &&& new.input_dialog == self.input_dialog
        &&& self.confirm_dialog is None ==> r is Unhandled && new == *self
        &&& self.confirm_dialog matches Some(d) ==> if toggles_button(key.code) {
            &&& r is Toggled
            &&& new.confirm_dialog matches Some(nd)
            &&& nd.selected_button != d.selected_button
            &&& nd.title == d.title && nd.prompt == d.prompt
            &&& nd.on_confirm == d.on_confirm && nd.on_cancel == d.on_cancel
        } else {
            match answer_of(key.code, d.selected_button) {
                Some(ConfirmButton::Yes) => r == ConfirmKeyAction::Confirm(d.on_confirm)
                    && new.confirm_dialog is None,
                Some(ConfirmButton::No) => r == ConfirmKeyAction::<F>::Cancel(d.on_cancel)
                    && new.confirm_dialog is None,
                None => r is Unhandled && new == *self,
            }
        }
    }

    /// Handles a key while the confirmation dialog is open (see `confirm_key_result`).
    pub fn handle_confirm_dialog_key(&mut self, key: KeyEvent) -> (r: ConfirmKeyAction<F>)
        requires
            old(self).wf(),
        ensures
            final(self).wf(),
            old(self).confirm_key_result(key, *final(self), r),
    {
        if self.confirm_dialog.is_none() {
            return ConfirmKeyAction::Unhandled;
        }
        if toggles(key.code) {
            self.toggle_confirm_button();
            return ConfirmKeyAction::Toggled;
        }
        let selected = match &self.confirm_dialog {
            Some(d) => d.selected_button,
            None => ConfirmButton::Yes,
        };
        match answer(key.code, selected) {
            None => ConfirmKeyAction::Unhandled,
            Some(choice) => match self.confirm_dialog.take() {
                Some(d) => match choice {
                    ConfirmButton::Yes => ConfirmKeyAction::Confirm(d.on_confirm),
                    ConfirmButton::No => ConfirmKeyAction::Cancel(d.on_cancel),
                },
                None => ConfirmKeyAction::Unhandled,
            },
        }
    }
}

} // verus!
