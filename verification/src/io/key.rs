//! The keys that the calculator reacts to.

use vstd::prelude::*;

verus! {

/// A key press decoded from the terminal's input.
#[derive(Clone, Copy, Debug, PartialEq, Eq, Structural)]
pub enum Key {
    Char(char),
    Enter,
    Backspace,
    Escape,
    ArrowUp,
    ArrowDown,
    ArrowRight,
    ArrowLeft,
}

} // verus!
