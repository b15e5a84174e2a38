use vstd::prelude::*;

verus! {

/// The key that was pressed, as far as navigation tells keys apart.
#[derive(Clone, Copy, PartialEq, Eq, Debug)]
pub enum KeyCode {
    Backspace,
    Enter,
    Left,
    Right,
    Up,
    Down,
    Tab,
    Esc,
    Char(char),
    /// Any other key; navigation ignores it.
    Other,
}

/// The modifier keys held down with a key press.
#[derive(Clone, Copy, PartialEq, Eq, Debug)]
pub struct KeyModifiers {
    pub control: bool,
}

impl KeyModifiers {
    /// No modifier held.
    pub fn none() -> (r: KeyModifiers)
        ensures
            !r.control,
    {
        KeyModifiers { control: false }
    }

    /// The Control key held.
    pub fn control() -> (r: KeyModifiers)
        ensures
            r.control,
    {
        KeyModifiers { control: true }
    }

    /// Whether every modifier of `other` is held in `self`.
    pub fn contains(&self, other: KeyModifiers) -> (r: bool)
        ensures
            r == (other.control ==> self.control),
    {
        !other.control || self.control
    }
}

/// A key press.
#[derive(Clone, Copy, PartialEq, Eq, Debug)]
pub struct KeyEvent {
    pub code: KeyCode,
    pub modifiers: KeyModifiers,
}

impl KeyEvent {
    pub fn new(code: KeyCode, modifiers: KeyModifiers) -> (r: KeyEvent)
        ensures
            r.code == code,
            r.modifiers == modifiers,
    {
        KeyEvent { code, modifiers }
    }
}

} // verus!
