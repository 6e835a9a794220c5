//! Mouse events.

use crate::term::key::KeyMods;
use crate::term::rect::Rect;
use vstd::prelude::*;

verus! {

#[derive(Clone, Copy, Debug, PartialEq, Eq, Structural)]
pub enum MouseButton {
    Left,
    Right,
    Middle,
}

#[derive(Clone, Copy, Debug, PartialEq, Eq, Structural)]
pub enum MouseEventKind {
    Down(MouseButton),
    Up(MouseButton),
    Drag(MouseButton),
    Moved,
    ScrollDown,
    ScrollUp,
    ScrollLeft,
    ScrollRight,
}

#[derive(Clone, Copy, Debug, PartialEq, Eq, Structural)]
pub struct MouseEvent {
    pub kind: MouseEventKind,
    pub x: i32,
    pub y: i32,
    pub mods: KeyMods,
}

impl MouseEvent {
    /// The event can be seen from any area on the screen.
    pub open spec fn on_screen(self) -> bool {
        self.x >= i32::MIN + u16::MAX && self.y >= i32::MIN + u16::MAX
    }

    /// The event as seen from the corner of `area`.
    pub open spec fn seen_from(self, area: Rect) -> MouseEvent {
        MouseEvent { x: (self.x - area.x) as i32, y: (self.y - area.y) as i32, ..self }
    }

    pub fn translate(self, area: Rect) -> (r: MouseEvent)
        requires
            self.on_screen(),
        ensures
            r == self.seen_from(area),
    {
        MouseEvent {
            kind: self.kind,
            x: self.x - area.x as i32,
            y: self.y - area.y as i32,
            mods: self.mods,
        }
    }
}

/// Which mouse events a program asked for.
#[derive(Clone, Copy, Debug, PartialEq, Eq, Structural)]
pub enum MouseProtocolMode {
    Off,
    Press,
    PressRelease,
    ButtonMotion,
    AnyMotion,
}

impl MouseProtocolMode {
    /// Whether a program that is in this mode is told of an event of `kind`.
    pub open spec fn reports(self, kind: MouseEventKind) -> bool {
        match self {
            MouseProtocolMode::Off => false,
            MouseProtocolMode::Press => !(kind is Up || kind is Drag || kind is Moved),
            MouseProtocolMode::PressRelease => !(kind is Drag || kind is Moved),
            MouseProtocolMode::ButtonMotion => !(kind is Moved),
            MouseProtocolMode::AnyMotion => true,
        }
    }

    pub fn wants(self, kind: MouseEventKind) -> (r: bool)
        ensures
            r == self.reports(kind),
    {
        match self {
            MouseProtocolMode::Off => false,
            MouseProtocolMode::Press => match kind {
                MouseEventKind::Up(_) | MouseEventKind::Drag(_) | MouseEventKind::Moved => false,
                _ => true,
            },
            MouseProtocolMode::PressRelease => match kind {
                MouseEventKind::Drag(_) | MouseEventKind::Moved => false,
                _ => true,
            },
            MouseProtocolMode::ButtonMotion => match kind {
                MouseEventKind::Moved => false,
                _ => true,
            },
            MouseProtocolMode::AnyMotion => true,
        }
    }
}

} // verus!
