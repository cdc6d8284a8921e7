//! Keyboard input as plain values: the part of a terminal key event that the editors read.
use vstd::prelude::*;

verus! {

/// The key that was pressed.
#[derive(PartialEq, Eq, Structural, Clone, Copy, Debug)]
pub enum KeyCode {
    Left,
    Right,
    Up,
    Down,
    Home,
    End,
    Backspace,
    Delete,
    Enter,
    Esc,
    Tab,
    BackTab,
    F(u8),
    Char(char),
    Other,
}

/// The modifier combination held with the key.
#[derive(PartialEq, Eq, Structural, Clone, Copy, Debug)]
pub enum KeyModifiers {
    /// No modifier.
    NoModifier,
    /// Shift alone.
    ShiftOnly,
    /// Control alone.
    ControlOnly,
    /// Any other combination.
    Combined,
}

/// A key press.
#[derive(PartialEq, Eq, Structural, Clone, Copy, Debug)]
pub struct KeyEvent {
    pub code: KeyCode,
    pub modifiers: KeyModifiers,
}

} // verus!
