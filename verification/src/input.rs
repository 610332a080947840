//! Backend-neutral UI input values.

use vstd::prelude::*;

verus! {

/// Pointer button identity without a libinput or Wayland dependency.
#[derive(Debug, Clone, Copy, PartialEq, Eq, Structural, Hash)]
pub enum PointerButton {
    Primary,
    Secondary,
    Middle,
    Other(u16),
}

/// Keyboard modifiers normalized by the host adapter.
#[derive(Debug, Clone, Copy, PartialEq, Eq, Structural, Hash)]
pub struct Modifiers {
    pub shift: bool,
    pub control: bool,
    pub alt: bool,
    pub logo: bool,
}

impl Default for Modifiers {
    fn default() -> (r: Self)
        ensures
            r == (Modifiers { shift: false, control: false, alt: false, logo: false }),
    {
        Modifiers { shift: false, control: false, alt: false, logo: false }
    }
}

/// Lifecycle of a continuous touch or precision-scroll gesture.
#[derive(Debug, Clone, Copy, PartialEq, Eq, Structural, Hash)]
pub enum ScrollPhase {
    Begin,
    Update,
    End,
    Cancel,
}

/// Logical key identity used by the toolkit.
#[derive(Debug, Clone, PartialEq, Eq, Hash)]
pub enum Key {
    Tab,
    Enter,
    Space,
    Escape,
    ArrowLeft,
    ArrowRight,
    ArrowUp,
    ArrowDown,
    Home,
    End,
    PageUp,
    PageDown,
    Backspace,
    Delete,
    Character(String),
    Named(String),
}

} // verus!
