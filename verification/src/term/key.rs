//! Keys.

use vstd::prelude::*;

verus! {

#[derive(Clone, Copy, Debug, PartialEq, Eq, Structural)]
pub enum KeyCode {
    Char(char),
    F(u8),
    Backspace,
    Enter,
    Left,
    Right,
    Up,
    Down,
    Home,
    End,
    PageUp,
    PageDown,
    Tab,
    BackTab,
    Delete,
    Insert,
    Null,
    Esc,
}

#[derive(Clone, Copy, Debug, PartialEq, Eq, Structural)]
pub struct KeyMods {
    pub shift: bool,
    pub control: bool,
    pub alt: bool,
}

impl KeyMods {
    pub open spec fn none_held() -> KeyMods {
        KeyMods { shift: false, control: false, alt: false }
    }

    pub fn none() -> (r: KeyMods)
        ensures
            r == KeyMods::none_held(),
    {
        KeyMods { shift: false, control: false, alt: false }
    }
}

#[derive(Clone, Copy, Debug, PartialEq, Eq, Structural)]
pub enum KeyEventKind {
    Press,
    Repeat,
    Release,
}

#[derive(Clone, Copy, Debug, PartialEq, Eq, Structural)]
pub struct Key {
    pub code: KeyCode,
    pub mods: KeyMods,
    pub kind: KeyEventKind,
}

impl Key {
    /// A key press.
    pub open spec fn press(code: KeyCode, mods: KeyMods) -> Key {
        Key { code, mods, kind: KeyEventKind::Press }
    }

    pub fn new(code: KeyCode, mods: KeyMods) -> (r: Key)
        ensures
            r == Key::press(code, mods),
    {
        Key { code, mods, kind: KeyEventKind::Press }
    }
}

} // verus!
