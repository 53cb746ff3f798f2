//! Switching between the terminal's main and alternate screen buffers,
//! using the xterm escape codes that most terminals understand.
use vstd::prelude::*;
use vstd::string::*;

verus! {

/// Switch to the main screen buffer of the terminal.
pub struct ToMainScreen;

impl ToMainScreen {
    /// The escape sequence performing this switch.
    pub fn sequence(&self) -> (r: String)
        ensures
            r@ == "\x1b[?1049l"@,
    {
        String::from_str("\x1b[?1049l")
    }
}

/// Switch to the alternate screen buffer of the terminal.
pub struct ToAlternateScreen;

impl ToAlternateScreen {
    /// The escape sequence performing this switch.
    pub fn sequence(&self) -> (r: String)
        ensures
            r@ == "\x1b[?1049h"@,
    {
        String::from_str("\x1b[?1049h")
    }
}

} // verus!
