//! Window-independent input vocabulary: modifier keys and pointer buttons.

use vstd::prelude::*;

verus! {

/// Modifier keys held during an event.
#[derive(Clone, Copy, Debug, Default, PartialEq, Eq)]
pub struct Modifiers {
    pub alt: bool,
    pub ctrl: bool,
    pub shift: bool,
    pub logo: bool,
}

/// A pointer button; `Other` carries the platform's button number.
#[derive(Clone, Copy, Debug, PartialEq, Eq)]
pub enum PointerButton {
    Primary,
    Secondary,
    Middle,
    Other(u16),
}

/// Which pointer buttons are held, as the input accumulator tracks them between events.
#[derive(Clone, Copy, Debug, Default, PartialEq, Eq)]
pub struct ButtonsHeld {
    pub primary: bool,
    pub secondary: bool,
    pub middle: bool,
}

impl ButtonsHeld {
    /// Records that `button` is now `pressed` (other buttons are not tracked).
    pub fn set_button(&mut self, button: PointerButton, pressed: bool)
        ensures
            *final(self) == match button {
                PointerButton::Primary => ButtonsHeld { primary: pressed, ..*old(self) },
                PointerButton::Secondary => ButtonsHeld { secondary: pressed, ..*old(self) },
                PointerButton::Middle => ButtonsHeld { middle: pressed, ..*old(self) },
                PointerButton::Other(_) => *old(self),
            },
    {
        match button {
            PointerButton::Primary => self.primary = pressed,
            PointerButton::Secondary => self.secondary = pressed,
            PointerButton::Middle => self.middle = pressed,
            PointerButton::Other(_) => {},
        }
    }

    /// Whether a tracked button is held.
    pub fn any_button_pressed(&self) -> (r: bool)
        ensures
            r == (self.primary || self.secondary || self.middle),
    {
        self.primary || self.secondary || self.middle
    }

    /// Applies a button event; returns whether the drag origin must be forgotten: a release that
    /// leaves no tracked button held. An event the UI consumed changes nothing.
    pub fn apply_button_event(&mut self, button: PointerButton, pressed: bool, ui_consumed: bool) -> (forget_origin: bool)
        ensures
            ui_consumed ==> *final(self) == *old(self) && !forget_origin,
            !ui_consumed ==> *final(self) == match button {
                PointerButton::Primary => ButtonsHeld { primary: pressed, ..*old(self) },
                PointerButton::Secondary => ButtonsHeld { secondary: pressed, ..*old(self) },
                PointerButton::Middle => ButtonsHeld { middle: pressed, ..*old(self) },
                PointerButton::Other(_) => *old(self),
            },
            !ui_consumed ==> forget_origin == (!pressed && !(final(self).primary || final(self).secondary
                || final(self).middle)),
    {
        if ui_consumed {
            return false;
        }
        self.set_button(button, pressed);
        !pressed && !self.any_button_pressed()
    }
}

} // verus!
