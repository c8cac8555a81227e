//! Text consoles.

use vstd::prelude::*;

verus! {

#[derive(Debug, Clone, Copy, PartialEq, Eq, Structural)]
pub enum ConsoleKey {
    Char(char),
    Enter,
    Backspace,
    /// Arrows, function keys, etc.
    Unknown,
}

/// Text console abstraction. Key-level (not line-buffered) because the shell
/// needs to handle backspace and echo character by character; all
/// line-assembly logic lives with the shell, not here.
pub trait Console {
    /// Non-blocking poll for one pending keystroke. Returns `None`
    /// immediately if none is buffered.
    fn read_key(&mut self) -> Option<ConsoleKey>;

    /// Writes text verbatim; implementations own newline translation. No
    /// implicit echo of input: callers echo typed characters themselves.
    fn write_str(&mut self, s: &str);

    fn clear(&mut self);
}

} // verus!
