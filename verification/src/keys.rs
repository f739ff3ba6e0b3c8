//! The keys that the screens of `bdd inject` react to.
use vstd::prelude::*;

verus! {

/// A key press, as the screens see it.
#[derive(Clone, Copy, PartialEq, Eq, Debug, Structural)]
pub enum Key {
    Esc,
    Tab,
    BackTab,
    Up,
    Down,
    Left,
    Right,
    Enter,
    Backspace,
    /// A character typed without Ctrl.
    Char(char),
    /// A character typed with Ctrl held.
    Ctrl(char),
    /// The F2 key: confirms the selection of machines.
    F2,
    /// Any other key.
    Other,
}

} // verus!
