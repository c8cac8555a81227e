//! The firmware's own console, which works until the firmware hands the
//! machine over.

use crate::hal::console::ConsoleKey;
use vstd::prelude::*;

verus! {

/// What polling the firmware's keyboard gave.
#[derive(Debug, Clone, Copy, PartialEq, Eq, Structural)]
pub enum Polled {
    /// A character, as the firmware encodes it: a UCS-2 code.
    Printable(u16),
    /// Arrows, function keys, etc.
    Special,
    /// Nobody has typed anything.
    Nothing,
    /// The device failed. Worth a line in the log: it would otherwise be
    /// indistinguishable from nobody typing.
    Failed,
}

/// Converts a code by `uefi::Char16::try_from` and from there to a `char`.
/// The codes set aside for surrogate pairs stand for no character; every
/// other code is the character of that number.
#[verifier::external_body]
fn char_of(code: u16) -> (r: Option<char>)
    ensures
        r == if 0xD800 <= code <= 0xDFFF {
            None
        } else {
            Some(code as char)
        },
{
    uefi::Char16::try_from(code).ok().map(char::from)
}

/// The key that was polled, if any.
pub open spec fn key_of(polled: Polled) -> Option<ConsoleKey> {
    match polled {
        Polled::Printable(code) => if 0xD800 <= code <= 0xDFFF {
            None
        } else if code == 0x0D {
            Some(ConsoleKey::Enter)
        } else if code == 0x08 {
            Some(ConsoleKey::Backspace)
        } else {
            Some(ConsoleKey::Char(code as char))
        },
        Polled::Special => Some(ConsoleKey::Unknown),
        Polled::Nothing | Polled::Failed => None,
    }
}

/// The key that was polled, if any.
pub fn read_key(polled: Polled) -> (r: Option<ConsoleKey>)
    ensures
        r == key_of(polled),
        polled matches Polled::Printable(code) ==> {
            &&& code == 0x0D ==> r == Some(ConsoleKey::Enter)
            &&& code == 0x08 ==> r == Some(ConsoleKey::Backspace)
            &&& 0xD800 <= code <= 0xDFFF ==> r is None
            &&& code != 0x0D && code != 0x08 && !(0xD800 <= code <= 0xDFFF) ==> r == Some(
                ConsoleKey::Char(code as char),
            )
        },
        polled is Special ==> r == Some(ConsoleKey::Unknown),
        polled is Nothing || polled is Failed ==> r is None,
{
    match polled {
        Polled::Printable(code) => match char_of(code) {
            None => None,
            Some('\r') => Some(ConsoleKey::Enter),
            Some('\u{8}') => Some(ConsoleKey::Backspace),
            Some(c) => Some(ConsoleKey::Char(c)),
        },
        Polled::Special => Some(ConsoleKey::Unknown),
        Polled::Nothing | Polled::Failed => None,
    }
}

} // verus!
