//! PS/2 keyboard, via the legacy i8042 controller.
//!
//! Separate pieces:
//!
//! * `IrqDrain`, the interrupt handler's part: takes raw scancodes off the
//!   controller and puts them into a `ScancodeQueue`. No decoding, so the
//!   code that runs with interrupts disabled stays tiny.
//! * `ScancodeQueue`, the ring between the handler and the reader.
//! * `Decoder`, a pure state machine from scancode set 1 to `ConsoleKey`,
//!   owned by the reader.
//! * `ControllerInit`, which brings the controller into a known state.
//!
//! Scope: US QWERTY, printable ASCII plus Enter/Backspace, Shift only. No
//! Caps Lock, Ctrl/Alt chords, keypad or extended keys (arrows, Delete, ...):
//! they all decode to `ConsoleKey::Unknown`.

use crate::hal::console::ConsoleKey;
use vstd::prelude::*;
use vstd::string::*;

verus! {

pub const DATA_PORT: u16 = 0x60;

/// Read = status register, write = command register (same port number).
pub const STATUS_COMMAND_PORT: u16 = 0x64;

pub const STATUS_OUTPUT_FULL: u8 = 0x01;

pub const STATUS_INPUT_FULL: u8 = 0x02;

/// Set when the byte waiting in the output buffer came from the mouse port.
pub const STATUS_AUX_DATA: u8 = 0x20;

pub const COMMAND_READ_CONFIG: u8 = 0x20;

pub const COMMAND_WRITE_CONFIG: u8 = 0x60;

pub const CONFIG_KEYBOARD_IRQ_ENABLE: u8 = 0x01;

/// Set = the keyboard's clock line is held off (keyboard disabled).
pub const CONFIG_KEYBOARD_CLOCK_DISABLE: u8 = 0x10;

/// The controller converts the keyboard's native scancode set 2 into the set
/// 1 this module decodes.
pub const CONFIG_TRANSLATE: u8 = 0x40;

/// Keyboard command: start sending scancodes. Answered with `KEYBOARD_ACK`.
pub const KEYBOARD_ENABLE_SCANNING: u8 = 0xF4;

pub const KEYBOARD_ACK: u8 = 0xFA;

/// Upper bound on status-register polls before giving up on the controller.
/// Generous (each poll is one port read) but finite: a missing or wedged
/// i8042 must produce an error, not a boot hang.
pub const POLL_LIMIT: u32 = 200_000;

/// Upper bound on bytes drained from the output buffer in one go, for the
/// same reason: a stuck-full status bit must not trap the caller.
pub const DRAIN_LIMIT: usize = 16;

pub const QUEUE_CAPACITY: usize = 64;

/// Fixed-capacity ring of raw scancodes, first in first out.
///
/// The indices are free-running counters (reduced to a slot on use) so
/// "empty" and "full" are unambiguous without sacrificing a slot.
pub struct ScancodeQueue {
    slots: [u8; 64],
    /// Next slot to read.
    head: u64,
    /// Next slot to write.
    tail: u64,
}

/// How many scancodes are waiting between two counters that wrap around.
spec fn waiting(head: u64, tail: u64) -> int {
    if tail >= head {
        tail - head
    } else {
        tail - head + 0x1_0000_0000_0000_0000
    }
}

/// The slot that the scancode `i` places behind the oldest one is in.
#[verifier::opaque]
spec fn slot_of(head: u64, i: int) -> int {
    (head as int % 64 + i) % 64
}

/// Fewer steps than there are slots never come back to the same slot.
proof fn slots_differ(head: u64, i: int, n: int)
    requires
        0 <= i < n < 64,
    ensures
        slot_of(head, i) != slot_of(head, n),
        0 <= slot_of(head, i) < 64,
{
    reveal(slot_of);
    let h = head as int % 64;
    assert(0 <= h < 64);
    assert(h + i < 64 ==> (h + i) % 64 == h + i);
    assert(h + i >= 64 ==> (h + i) % 64 == h + i - 64);
    assert(h + n < 64 ==> (h + n) % 64 == h + n);
    assert(h + n >= 64 ==> (h + n) % 64 == h + n - 64);
}

/// The slot behind all that are waiting is the one at the tail.
proof fn the_tail_is_free(head: u64, tail: u64)
    ensures
        slot_of(head, waiting(head, tail)) == tail as int % 64,
        slot_of(head, 0) == head as int % 64,
{
    reveal(slot_of);
}

/// The slot `i` after the next head is the slot `i + 1` after this one.
proof fn slots_move_up(head: u64, after: u64, i: int)
    requires
        after == if head == u64::MAX {
            0
        } else {
            head + 1
        },
    ensures
        slot_of(after, i) == slot_of(head, i + 1),
{
    reveal(slot_of);
}

/// The contents of a ring, the oldest first.
spec fn ring(slots: Seq<u8>, head: u64, tail: u64) -> Seq<u8> {
    Seq::new(waiting(head, tail) as nat, |i: int| slots[slot_of(head, i)])
}

/// Writing the slot at the tail adds to the end of the ring.
proof fn writing_the_tail(slots: Seq<u8>, head: u64, tail: u64, after: u64, scancode: u8)
    requires
        slots.len() == 64,
        waiting(head, tail) < 64,
        after == if tail == u64::MAX {
            0
        } else {
            tail + 1
        },
    ensures
        waiting(head, after) == waiting(head, tail) + 1,
        ring(slots.update(tail as int % 64, scancode), head, after) == ring(slots, head, tail).push(
            scancode,
        ),
{
    let n = waiting(head, tail);
    let written = slots.update(tail as int % 64, scancode);
    let longer = ring(slots, head, tail).push(scancode);
    the_tail_is_free(head, tail);
    assert forall|i: int| 0 <= i < n implies ring(written, head, after)[i] == longer[i] by {
        slots_differ(head, i, n);
    }
    assert(ring(written, head, after) =~= longer);
}

/// Moving the head on takes the oldest scancode off the ring.
proof fn moving_the_head(slots: Seq<u8>, head: u64, tail: u64, after: u64)
    requires
        slots.len() == 64,
        0 < waiting(head, tail) <= 64,
        after == if head == u64::MAX {
            0
        } else {
            head + 1
        },
    ensures
        waiting(after, tail) == waiting(head, tail) - 1,
        ring(slots, head, tail)[0] == slots[head as int % 64],
        ring(slots, after, tail) == ring(slots, head, tail).drop_first(),
{
    let rest = ring(slots, head, tail).drop_first();
    assert forall|i: int| 0 <= i < rest.len() implies ring(slots, after, tail)[i] == rest[i] by {
        slots_move_up(head, after, i);
    }
    the_tail_is_free(head, tail);
    assert(ring(slots, after, tail) =~= rest);
}

impl View for ScancodeQueue {
    type V = Seq<u8>;

    /// The scancodes that are waiting, the oldest first.
    closed spec fn view(&self) -> Seq<u8> {
        ring(self.slots@, self.head, self.tail)
    }
}

impl ScancodeQueue {
    #[verifier::type_invariant]
    spec fn fits(self) -> bool {
        waiting(self.head, self.tail) <= 64
    }

    pub fn new() -> (r: Self)
        ensures
            r@ == Seq::<u8>::empty(),
    {
        let queue = ScancodeQueue { slots: [0; 64], head: 0, tail: 0 };
        assert(queue@ =~= Seq::<u8>::empty());
        queue
    }

    /// Returns `false`, storing nothing, if the queue is full: dropping the
    /// newest scancode is preferable to overwriting one that is still to be
    /// read.
    #[must_use]
    pub fn push(&mut self, scancode: u8) -> (r: bool)
        ensures
            r == (old(self)@.len() < QUEUE_CAPACITY),
            r == (old(self)@.len() < 64),
            final(self)@ == if r {
                old(self)@.push(scancode)
            } else {
                old(self)@
            },
    {
        proof {
            use_type_invariant(&*self);
        }
        let tail: u64 = self.tail;
        let head: u64 = self.head;
        if tail.wrapping_sub(head) == QUEUE_CAPACITY as u64 {
            return false;
        }
        let mut slots = self.slots;
        slots[(tail % 64) as usize] = scancode;
        let after: u64 = tail.wrapping_add(1);
        proof {
            writing_the_tail(self.slots@, head, tail, after, scancode);
        }
        *self = ScancodeQueue { slots, head, tail: after };
        true
    }

    /// The oldest scancode, which leaves the queue. `None` if nothing is
    /// pending.
    pub fn pop(&mut self) -> (r: Option<u8>)
        ensures
            old(self)@.len() == 0 ==> r is None && final(self)@ == old(self)@,
            old(self)@.len() > 0 ==> r == Some(old(self)@[0]) && final(self)@
                == old(self)@.drop_first(),
    {
        proof {
            use_type_invariant(&*self);
        }
        let head: u64 = self.head;
        let tail: u64 = self.tail;
        if head == tail {
            return None;
        }
        let slots = self.slots;
        let scancode: u8 = slots[(head % 64) as usize];
        let after: u64 = head.wrapping_add(1);
        proof {
            moving_the_head(self.slots@, head, tail, after);
        }
        *self = ScancodeQueue { slots, head: after, tail };
        Some(scancode)
    }
}

impl Default for ScancodeQueue {
    fn default() -> (r: Self)
        ensures
            r@ == Seq::<u8>::empty(),
    {
        Self::new()
    }
}

pub const PREFIX_EXTENDED: u8 = 0xE0;

pub const BREAK_BIT: u8 = 0x80;

pub const SC_BACKSPACE: u8 = 0x0E;

pub const SC_ENTER: u8 = 0x1C;

pub const SC_LEFT_SHIFT: u8 = 0x2A;

pub const SC_RIGHT_SHIFT: u8 = 0x36;

/// US QWERTY, indexed by set-1 make code: `(unshifted, shifted)` ASCII, or
/// `(0, 0)` for a key that produces no printable character here (Esc, Tab,
/// Ctrl, Alt, Caps Lock, keypad, ...). Backspace and Enter are handled before
/// this table is consulted, so their entries are unused.
pub const KEY_TABLE: [(u8, u8); 0x3A] = [
    (0x00, 0x00), // 0x00
    (0x00, 0x00), // 0x01 Esc
    (0x31, 0x21), // 0x02 1 !
    (0x32, 0x40), // 0x03 2 @
    (0x33, 0x23), // 0x04 3 #
    (0x34, 0x24), // 0x05 4 $
    (0x35, 0x25), // 0x06 5 %
    (0x36, 0x5E), // 0x07 6 ^
    (0x37, 0x26), // 0x08 7 &
    (0x38, 0x2A), // 0x09 8 *
    (0x39, 0x28), // 0x0A 9 (
    (0x30, 0x29), // 0x0B 0 )
    (0x2D, 0x5F), // 0x0C - _
    (0x3D, 0x2B), // 0x0D = +
    (0x00, 0x00), // 0x0E Backspace
    (0x00, 0x00), // 0x0F Tab
    (0x71, 0x51), // 0x10 q Q
    (0x77, 0x57), // 0x11 w W
    (0x65, 0x45), // 0x12 e E
    (0x72, 0x52), // 0x13 r R
    (0x74, 0x54), // 0x14 t T
    (0x79, 0x59), // 0x15 y Y
    (0x75, 0x55), // 0x16 u U
    (0x69, 0x49), // 0x17 i I
    (0x6F, 0x4F), // 0x18 o O
    (0x70, 0x50), // 0x19 p P
    (0x5B, 0x7B), // 0x1A [ {
    (0x5D, 0x7D), // 0x1B ] }
    (0x00, 0x00), // 0x1C Enter
    (0x00, 0x00), // 0x1D Left Ctrl
    (0x61, 0x41), // 0x1E a A
    (0x73, 0x53), // 0x1F s S
    (0x64, 0x44), // 0x20 d D
    (0x66, 0x46), // 0x21 f F
    (0x67, 0x47), // 0x22 g G
    (0x68, 0x48), // 0x23 h H
    (0x6A, 0x4A), // 0x24 j J
    (0x6B, 0x4B), // 0x25 k K
    (0x6C, 0x4C), // 0x26 l L
    (0x3B, 0x3A), // 0x27 ; :
    (0x27, 0x22), // 0x28 ' "
    (0x60, 0x7E), // 0x29 ` ~
    (0x00, 0x00), // 0x2A Left Shift
    (0x5C, 0x7C), // 0x2B \ |
    (0x7A, 0x5A), // 0x2C z Z
    (0x78, 0x58), // 0x2D x X
    (0x63, 0x43), // 0x2E c C
    (0x76, 0x56), // 0x2F v V
    (0x62, 0x42), // 0x30 b B
    (0x6E, 0x4E), // 0x31 n N
    (0x6D, 0x4D), // 0x32 m M
    (0x2C, 0x3C), // 0x33 , <
    (0x2E, 0x3E), // 0x34 . >
    (0x2F, 0x3F), // 0x35 / ?
    (0x00, 0x00), // 0x36 Right Shift
    (0x00, 0x00), // 0x37 keypad *
    (0x00, 0x00), // 0x38 Left Alt
    (0x20, 0x20), // 0x39 Space
];

/// The rows of a US keyboard in scancode order, unshifted and shifted.
pub open spec fn us_row(make: int) -> (int, Seq<char>, Seq<char>) {
    if 0x02 <= make <= 0x0D {
        (0x02, "1234567890-="@, "!@#$%^&*()_+"@)
    } else if 0x10 <= make <= 0x1B {
        (0x10, "qwertyuiop[]"@, "QWERTYUIOP{}"@)
    } else if 0x1E <= make <= 0x29 {
        (0x1E, "asdfghjkl;'`"@, "ASDFGHJKL:\"~"@)
    } else if make == 0x2B {
        (0x2B, "\\"@, "|"@)
    } else if 0x2C <= make <= 0x35 {
        (0x2C, "zxcvbnm,./"@, "ZXCVBNM<>?"@)
    } else if make == 0x39 {
        (0x39, " "@, " "@)
    } else {
        (make, Seq::empty(), Seq::empty())
    }
}

/// The table is the physical US layout: every key of a row has its two
/// characters, every other entry has none.
pub proof fn the_table_is_the_us_layout(make: int)
    requires
        0 <= make < 0x3A,
    ensures
        ({
            let (first, unshifted, shifted) = us_row(make);
            let (lo, hi) = KEY_TABLE[make];
            if unshifted.len() > 0 {
                &&& unshifted.len() == shifted.len()
                &&& 0 <= make - first < unshifted.len()
                &&& lo as char == unshifted[make - first]
                &&& hi as char == shifted[make - first]
                &&& 0x20 <= lo < 0x7F
                &&& 0x20 <= hi < 0x7F
            } else {
                lo == 0 && hi == 0
            }
        }),
{
    reveal_strlit("1234567890-=");
    reveal_strlit("!@#$%^&*()_+");
    reveal_strlit("qwertyuiop[]");
    reveal_strlit("QWERTYUIOP{}");
    reveal_strlit("asdfghjkl;'`");
    reveal_strlit("ASDFGHJKL:\"~");
    reveal_strlit("\\");
    reveal_strlit("|");
    reveal_strlit("zxcvbnm,./");
    reveal_strlit("ZXCVBNM<>?");
    reveal_strlit(" ");
}

/// Turns the raw scancode byte stream into `ConsoleKey`s.
#[derive(Debug, Clone, Copy, PartialEq, Eq, Structural)]
pub struct Decoder {
    pub left_shift: bool,
    pub right_shift: bool,
    /// The previous byte was the `0xE0` prefix, so this one belongs to an
    /// extended key.
    pub expecting_extended: bool,
}

/// The key a scancode names, whether it goes down or up.
pub open spec fn make_code(scancode: u8) -> u8 {
    (scancode % 0x80) as u8
}

/// Whether a scancode says that a key goes up.
pub open spec fn is_release(scancode: u8) -> bool {
    scancode >= 0x80
}

/// What a key that is pressed means.
pub open spec fn pressed(make: u8, shifted: bool) -> ConsoleKey {
    if make == SC_BACKSPACE {
        ConsoleKey::Backspace
    } else if make == SC_ENTER {
        ConsoleKey::Enter
    } else if make < 0x3A && KEY_TABLE[make as int].0 != 0 {
        ConsoleKey::Char(
            if shifted {
                KEY_TABLE[make as int].1
            } else {
                KEY_TABLE[make as int].0
            } as char,
        )
    } else {
        ConsoleKey::Unknown
    }
}

/// A scancode is a key and whether it goes up.
proof fn scancode_bits(scancode: u8)
    by (bit_vector)
    ensures
        scancode & 0x80 != 0 <==> scancode >= 0x80,
        scancode & !0x80u8 == scancode % 0x80,
{
}

impl Decoder {
    pub open spec fn shifted(self) -> bool {
        self.left_shift || self.right_shift
    }

    /// The decoder after one more byte.
    pub open spec fn after(self, scancode: u8) -> Decoder {
        if scancode == PREFIX_EXTENDED {
            Decoder { expecting_extended: true, ..self }
        } else if self.expecting_extended {
            Decoder { expecting_extended: false, ..self }
        } else if make_code(scancode) == SC_LEFT_SHIFT {
            Decoder { left_shift: !is_release(scancode), ..self }
        } else if make_code(scancode) == SC_RIGHT_SHIFT {
            Decoder { right_shift: !is_release(scancode), ..self }
        } else {
            self
        }
    }

    /// The key that one more byte completes.
    pub open spec fn key(self, scancode: u8) -> Option<ConsoleKey> {
        let make = make_code(scancode);
        if scancode == PREFIX_EXTENDED || is_release(scancode) {
            None
        } else if self.expecting_extended {
            Some(ConsoleKey::Unknown)
        } else if make == SC_LEFT_SHIFT || make == SC_RIGHT_SHIFT {
            None
        } else {
            Some(pressed(make, self.shifted()))
        }
    }

    pub fn new() -> (r: Self)
        returns
            (Decoder { left_shift: false, right_shift: false, expecting_extended: false }),
    {
        Decoder { left_shift: false, right_shift: false, expecting_extended: false }
    }

    /// Feeds one scancode byte. Returns the key it completes, if any: key
    /// *releases*, the `0xE0` prefix and Shift itself all return `None` (they
    /// only change decoder state).
    pub fn feed(&mut self, scancode: u8) -> (r: Option<ConsoleKey>)
        ensures
            r == old(self).key(scancode),
            *final(self) == old(self).after(scancode),
    {
        if scancode == PREFIX_EXTENDED {
            self.expecting_extended = true;
            return None;
        }
        let extended = self.expecting_extended;
        self.expecting_extended = false;
        proof {
            scancode_bits(scancode);
        }
        let released = scancode & BREAK_BIT != 0;
        let make: u8 = scancode & !BREAK_BIT;
        if extended {
            // No extended key is mapped. Swallowing the whole pair here also
            // keeps the "fake Shift" (`E0 2A` / `E0 AA`) that some keyboards
            // wrap around navigation keys from being mistaken for a real
            // Shift press.
            return if released {
                None
            } else {
                Some(ConsoleKey::Unknown)
            };
        }
        if make == SC_LEFT_SHIFT {
            self.left_shift = !released;
            return None;
        }
        if make == SC_RIGHT_SHIFT {
            self.right_shift = !released;
            return None;
        }
        if released {
            return None;
        }
        if make == SC_BACKSPACE {
            return Some(ConsoleKey::Backspace);
        }
        if make == SC_ENTER {
            return Some(ConsoleKey::Enter);
        }
        if make >= 0x3A {
            return Some(ConsoleKey::Unknown);
        }
        let (unshifted, shifted) = KEY_TABLE[make as usize];
        if unshifted == 0 {
            return Some(ConsoleKey::Unknown);
        }
        let code: u8 = if self.left_shift || self.right_shift {
            shifted
        } else {
            unshifted
        };
        Some(ConsoleKey::Char(code as char))
    }
}

impl Default for Decoder {
    fn default() -> (r: Self)
        ensures
            r == (Decoder { left_shift: false, right_shift: false, expecting_extended: false }),
    {
        Self::new()
    }
}

/// The prefix reaches exactly one byte: whatever follows it, the byte after
/// that is decoded as if the pair had not been there. In particular the pair
/// is never taken for a Shift.
pub proof fn an_extended_pair_leaves_no_trace(decoder: Decoder, scancode: u8)
    requires
        !decoder.expecting_extended,
        scancode != PREFIX_EXTENDED,
    ensures
        decoder.after(PREFIX_EXTENDED).after(scancode) == decoder,
        decoder.key(PREFIX_EXTENDED) is None,
        decoder.after(PREFIX_EXTENDED).key(scancode) == if is_release(scancode) {
            None::<ConsoleKey>
        } else {
            Some(ConsoleKey::Unknown)
        },
{
}

/// A key that is pressed gives the character its place on a US keyboard has,
/// the upper one while a Shift is down. Backspace and Enter are keys of their
/// own, the two Shifts give nothing, and every other key is unknown.
pub proof fn a_key_gives_its_character(decoder: Decoder, scancode: u8)
    requires
        !decoder.expecting_extended,
        scancode < 0x80,
    ensures
        ({
            let key = decoder.key(scancode);
            let up = decoder.left_shift || decoder.right_shift;
            let one_of = |unshifted: Seq<char>, shifted: Seq<char>, first: int|
                Some(
                    ConsoleKey::Char(
                        if up {
                            shifted[scancode - first]
                        } else {
                            unshifted[scancode - first]
                        },
                    ),
                );
            if scancode == 0x0E {
                key == Some(ConsoleKey::Backspace)
            } else if scancode == 0x1C {
                key == Some(ConsoleKey::Enter)
            } else if scancode == 0x2A || scancode == 0x36 {
                key is None
            } else if 0x02 <= scancode <= 0x0D {
                key == one_of("1234567890-="@, "!@#$%^&*()_+"@, 0x02)
            } else if 0x10 <= scancode <= 0x1B {
                key == one_of("qwertyuiop[]"@, "QWERTYUIOP{}"@, 0x10)
            } else if 0x1E <= scancode <= 0x29 {
                key == one_of("asdfghjkl;'`"@, "ASDFGHJKL:\"~"@, 0x1E)
            } else if scancode == 0x2B {
                key == one_of("\\"@, "|"@, 0x2B)
            } else if 0x2C <= scancode <= 0x35 {
                key == one_of("zxcvbnm,./"@, "ZXCVBNM<>?"@, 0x2C)
            } else if scancode == 0x39 {
                key == Some(ConsoleKey::Char(' '))
            } else {
                key == Some(ConsoleKey::Unknown)
            }
        }),
{
    if scancode < 0x3A {
        the_table_is_the_us_layout(scancode as int);
    }
    reveal_strlit("1234567890-=");
    reveal_strlit("!@#$%^&*()_+");
    reveal_strlit("qwertyuiop[]");
    reveal_strlit("QWERTYUIOP{}");
    reveal_strlit("asdfghjkl;'`");
    reveal_strlit("ASDFGHJKL:\"~");
    reveal_strlit("\\");
    reveal_strlit("|");
    reveal_strlit("zxcvbnm,./");
    reveal_strlit("ZXCVBNM<>?");
    reveal_strlit(" ");
}

/// What a byte does to the decoder. The prefix is waited past for one byte;
/// a Shift is down from its press to its release; no other byte changes
/// anything.
pub proof fn a_byte_changes_only_what_it_names(decoder: Decoder, scancode: u8)
    ensures
        ({
            let after = decoder.after(scancode);
            let plain = !decoder.expecting_extended && scancode != 0xE0;
            &&& after.expecting_extended <==> scancode == 0xE0
            &&& after.left_shift == if plain && scancode == 0x2A {
                true
            } else if plain && scancode == 0xAA {
                false
            } else {
                decoder.left_shift
            }
            &&& after.right_shift == if plain && scancode == 0x36 {
                true
            } else if plain && scancode == 0xB6 {
                false
            } else {
                decoder.right_shift
            }
        }),
        scancode >= 0x80 ==> decoder.key(scancode) is None,
        decoder.expecting_extended && scancode < 0x80 ==> decoder.key(scancode) == Some(
            ConsoleKey::Unknown,
        ),
{
}

/// Letting a key go never completes a key.
pub proof fn releases_are_silent(decoder: Decoder, scancode: u8)
    requires
        is_release(scancode),
    ensures
        decoder.key(scancode) is None,
{
}

/// Pressing and releasing a Shift leaves the other Shift and everything else
/// as it was.
pub proof fn the_two_shifts_are_independent(decoder: Decoder)
    requires
        !decoder.expecting_extended,
    ensures
        decoder.after(SC_LEFT_SHIFT).after((SC_LEFT_SHIFT + BREAK_BIT) as u8) == (Decoder {
            left_shift: false,
            ..decoder
        }),
        decoder.after(SC_RIGHT_SHIFT).after((SC_RIGHT_SHIFT + BREAK_BIT) as u8) == (Decoder {
            right_shift: false,
            ..decoder
        }),
        decoder.after(SC_LEFT_SHIFT).shifted(),
        decoder.after(SC_RIGHT_SHIFT).shifted(),
{
}

/// What reading a stream of scancodes up to its first key gives: the decoder
/// afterwards, how many bytes were taken, and the key.
pub open spec fn first_key(decoder: Decoder, codes: Seq<u8>) -> (Decoder, int, Option<ConsoleKey>)
    decreases codes.len(),
{
    if codes.len() == 0 {
        (decoder, 0, None)
    } else {
        match decoder.key(codes[0]) {
            Some(key) => (decoder.after(codes[0]), 1, Some(key)),
            None => {
                let (after, taken, key) = first_key(decoder.after(codes[0]), codes.drop_first());
                (after, taken + 1, key)
            },
        }
    }
}

/// Reader-side handle: drains the queue and decodes it.
#[derive(Debug, Clone, Copy, PartialEq, Eq, Structural)]
pub struct Keyboard {
    pub decoder: Decoder,
}

impl Keyboard {
    pub fn new() -> (r: Self)
        ensures
            r.decoder == (Decoder {
                left_shift: false,
                right_shift: false,
                expecting_extended: false,
            }),
    {
        Keyboard { decoder: Decoder::new() }
    }

    /// Non-blocking. Returns the next decoded key, or `None` if the queue
    /// holds no complete key right now.
    pub fn read_key(&mut self, queue: &mut ScancodeQueue) -> (r: Option<ConsoleKey>)
        ensures
            ({
                let (after, taken, key) = first_key(old(self).decoder, old(queue)@);
                &&& r == key
                &&& final(self).decoder == after
                &&& final(queue)@ == old(queue)@.skip(taken)
            }),
    {
        self.read_key_from(queue)
    }

    pub fn read_key_from(&mut self, queue: &mut ScancodeQueue) -> (r: Option<ConsoleKey>)
        ensures
            ({
                let (after, taken, key) = first_key(old(self).decoder, old(queue)@);
                &&& r == key
                &&& final(self).decoder == after
                &&& final(queue)@ == old(queue)@.skip(taken)
            }),
    {
        let ghost codes = queue@;
        let ghost mut done: int = 0;
        loop
            invariant
                codes == old(queue)@,
                0 <= done <= codes.len(),
                queue@ == codes.skip(done),
                ({
                    let (after, taken, key) = first_key(old(self).decoder, codes);
                    let (now, more, next) = first_key(self.decoder, queue@);
                    after == now && taken == done + more && key == next
                }),
            decreases queue@.len(),
        {
            let ghost rest = queue@;
            match queue.pop() {
                None => {
                    assert(codes.skip(done) =~= codes.skip(done + 0));
                    return None;
                },
                Some(scancode) => {
                    proof {
                        assert(rest.drop_first() =~= codes.skip(done + 1));
                        done = done + 1;
                    }
                    match self.decoder.feed(scancode) {
                        Some(key) => {
                            return Some(key);
                        },
                        None => {},
                    }
                },
            }
        }
    }
}

impl Default for Keyboard {
    fn default() -> (r: Self)
        ensures
            r.decoder == (Decoder {
                left_shift: false,
                right_shift: false,
                expecting_extended: false,
            }),
    {
        Self::new()
    }
}

/// No key is lost and none is made up: no byte before the first key completes
/// one, and where there is no key every byte has been taken.
pub proof fn reading_skips_no_key(decoder: Decoder, codes: Seq<u8>)
    ensures
        ({
            let (after, taken, key) = first_key(decoder, codes);
            &&& 0 <= taken <= codes.len()
            &&& key is None ==> taken == codes.len()
            &&& after == fed(decoder, codes.take(taken))
            &&& key is Some ==> taken > 0 && key == fed(decoder, codes.take(taken - 1)).key(
                codes[taken - 1],
            )
            &&& forall|i: int|
                0 <= i < taken && (key is None || i < taken - 1) ==> (#[trigger] fed(
                    decoder,
                    codes.take(i),
                ).key(codes[i])) is None
        }),
    decreases codes.len(),
{
    if codes.len() > 0 {
        let rest = codes.drop_first();
        let (after, taken, key) = first_key(decoder, codes);
        assert(fed(decoder, Seq::empty()) == decoder);
        if decoder.key(codes[0]) is None {
            reading_skips_no_key(decoder.after(codes[0]), rest);
            let next = decoder.after(codes[0]);
            assert(codes.take(taken).drop_first() =~= rest.take(taken - 1));
            assert(fed(decoder, codes.take(taken)) == fed(next, rest.take(taken - 1)));
            assert forall|i: int| 0 <= i < taken && (key is None || i < taken - 1) implies (
            #[trigger] fed(decoder, codes.take(i)).key(codes[i])) is None by {
                if i == 0 {
                    assert(codes.take(0) =~= Seq::<u8>::empty());
                } else {
                    assert(codes.take(i).drop_first() =~= rest.take(i - 1));
                    assert(fed(decoder, codes.take(i)) == fed(next, rest.take(i - 1)));
                    assert(codes[i] == rest[i - 1]);
                    assert(fed(next, rest.take(i - 1)).key(rest[i - 1]) is None);
                }
            }
            if key is Some {
                assert(codes.take(taken - 1).drop_first() =~= rest.take(taken - 2));
                assert(fed(decoder, codes.take(taken - 1)) == fed(next, rest.take(taken - 2)));
                assert(codes[taken - 1] == rest[taken - 2]);
            }
        } else {
            assert(codes.take(1).drop_first() =~= Seq::<u8>::empty());
            assert(fed(decoder.after(codes[0]), Seq::empty()) == decoder.after(codes[0]));
            assert(codes.take(0) =~= Seq::<u8>::empty());
        }
    } else {
        assert(codes.take(0) =~= Seq::<u8>::empty());
    }
}

/// The decoder after a whole stream of bytes.
pub open spec fn fed(decoder: Decoder, codes: Seq<u8>) -> Decoder
    decreases codes.len(),
{
    if codes.len() == 0 {
        decoder
    } else {
        fed(decoder.after(codes[0]), codes.drop_first())
    }
}

#[derive(Debug, Clone, Copy, PartialEq, Eq, Structural)]
pub enum InitError {
    /// The controller never became ready within `POLL_LIMIT` status reads:
    /// absent, wedged, or not an i8042 at these ports.
    ControllerTimeout,
}

/// One port access. A read is answered with the byte that was read.
#[derive(Debug, Clone, Copy, PartialEq, Eq, Structural)]
pub enum Request {
    ReadStatus,
    ReadData,
    WriteCommand(u8),
    WriteData(u8),
    /// There is nothing left to do.
    Nothing,
}

/// How far the controller has been brought.
#[derive(Debug, Clone, Copy, PartialEq, Eq, Structural)]
pub enum Stage {
    /// Throwing away what was left in the output buffer.
    Drain,
    /// Asking for the configuration byte.
    AskConfig,
    /// Waiting for it.
    ConfigReply,
    /// Announcing the new configuration byte.
    WriteConfig,
    /// Sending it.
    ConfigValue,
    /// Telling the keyboard to send scancodes. The firmware normally leaves
    /// scanning enabled, but nothing guarantees it, and the command is
    /// idempotent.
    EnableScanning,
    /// Waiting for the keyboard's answer. A missing or odd one is no error: a
    /// keyboard that was already scanning works fine.
    ScanningReply,
    /// Throwing away the answer's followers, which would otherwise be decoded
    /// as keys.
    FinalDrain,
    Ready,
    Failed,
}

/// The configuration that the controller gets: keyboard interrupts enabled,
/// keyboard clock on, scancode translation on (so the stream is set 1).
pub open spec fn wanted_config(config: u8) -> u8 {
    (config | CONFIG_KEYBOARD_IRQ_ENABLE | CONFIG_TRANSLATE) & !CONFIG_KEYBOARD_CLOCK_DISABLE
}

/// The new configuration has the interrupt and the translation on and the
/// clock running, and changes nothing else.
pub proof fn the_configuration_changes_three_bits(config: u8)
    ensures
        wanted_config(config) & CONFIG_KEYBOARD_IRQ_ENABLE != 0,
        wanted_config(config) & CONFIG_TRANSLATE != 0,
        wanted_config(config) & CONFIG_KEYBOARD_CLOCK_DISABLE == 0,
        wanted_config(config) & 0xAE == config & 0xAE,
        wanted_config(config) % 2 == 1,
        wanted_config(config) / 0x40 % 2 == 1,
        wanted_config(config) / 0x10 % 2 == 0,
{
    configuration_bits(config);
}

proof fn configuration_bits(config: u8)
    by (bit_vector)
    ensures
        ((config | 1 | 0x40) & !0x10u8) & 1 != 0,
        ((config | 1 | 0x40) & !0x10u8) & 0x40 != 0,
        ((config | 1 | 0x40) & !0x10u8) & 0x10 == 0,
        ((config | 1 | 0x40) & !0x10u8) & 0xAE == config & 0xAE,
        ((config | 1 | 0x40) & !0x10u8) % 2 == 1,
        ((config | 1 | 0x40) & !0x10u8) / 0x40 % 2 == 1,
        ((config | 1 | 0x40) & !0x10u8) / 0x10 % 2 == 0,
{
}

/// Puts the i8042 and the keyboard behind it into a known state, one port
/// access at a time: whoever runs it performs `request` and hands the byte
/// that was read to `advance`, until there is nothing left to do.
#[derive(Debug, Clone, Copy, PartialEq, Eq, Structural)]
pub struct ControllerInit {
    pub stage: Stage,
    /// The controller has said that the access of this stage can be made.
    pub ready: bool,
    /// Polls made, or bytes thrown away, in this stage.
    pub tries: u32,
    /// The configuration byte that was found.
    pub config: u8,
    /// What the keyboard answered, if it did.
    pub answer: Option<u8>,
}

impl ControllerInit {
    pub open spec fn start() -> ControllerInit {
        ControllerInit { stage: Stage::Drain, ready: false, tries: 0, config: 0, answer: None }
    }

    pub open spec fn enter(self, stage: Stage) -> ControllerInit {
        ControllerInit { stage, ready: false, tries: 0, ..self }
    }

    pub open spec fn is_draining(self) -> bool {
        self.stage is Drain || self.stage is FinalDrain
    }

    pub open spec fn is_sending(self) -> bool {
        self.stage is AskConfig || self.stage is WriteConfig || self.stage is ConfigValue
            || self.stage is EnableScanning
    }

    pub open spec fn is_finished(self) -> bool {
        self.stage is Ready || self.stage is Failed
    }

    /// What comes once a stage is through.
    pub open spec fn following(self) -> Stage {
        match self.stage {
            Stage::Drain => Stage::AskConfig,
            Stage::AskConfig => Stage::ConfigReply,
            Stage::ConfigReply => Stage::WriteConfig,
            Stage::WriteConfig => Stage::ConfigValue,
            Stage::ConfigValue => Stage::EnableScanning,
            Stage::EnableScanning => Stage::ScanningReply,
            Stage::ScanningReply => Stage::FinalDrain,
            Stage::FinalDrain => Stage::Ready,
            Stage::Ready => Stage::Ready,
            Stage::Failed => Stage::Failed,
        }
    }

    /// What comes when the controller has been polled too often. Only the
    /// keyboard's own answer can be done without.
    pub open spec fn given_up(self) -> Stage {
        if self.stage is ScanningReply {
            Stage::FinalDrain
        } else {
            Stage::Failed
        }
    }

    pub open spec fn asks(self) -> Request {
        if self.is_finished() {
            Request::Nothing
        } else if !self.ready {
            Request::ReadStatus
        } else {
            match self.stage {
                Stage::AskConfig => Request::WriteCommand(COMMAND_READ_CONFIG),
                Stage::WriteConfig => Request::WriteCommand(COMMAND_WRITE_CONFIG),
                Stage::ConfigValue => Request::WriteData(wanted_config(self.config)),
                Stage::EnableScanning => Request::WriteData(KEYBOARD_ENABLE_SCANNING),
                _ => Request::ReadData,
            }
        }
    }

    /// The state after the request has been performed and answered.
    pub open spec fn after(self, reply: u8) -> ControllerInit {
        if self.is_finished() {
            self
        } else if self.is_draining() {
            if !self.ready && reply & STATUS_OUTPUT_FULL == 0 {
                self.enter(self.following())
            } else if !self.ready {
                ControllerInit { ready: true, ..self }
            } else if self.tries + 1 >= DRAIN_LIMIT {
                self.enter(self.following())
            } else {
                ControllerInit { ready: false, tries: (self.tries + 1) as u32, ..self }
            }
        } else if self.ready {
            match self.stage {
                Stage::ConfigReply => (ControllerInit { config: reply, ..self }).enter(
                    self.following(),
                ),
                Stage::ScanningReply => (ControllerInit { answer: Some(reply), ..self }).enter(
                    self.following(),
                ),
                _ => self.enter(self.following()),
            }
        } else if if self.is_sending() {
            reply & STATUS_INPUT_FULL == 0
        } else {
            reply & STATUS_OUTPUT_FULL != 0
        } {
            ControllerInit { ready: true, ..self }
        } else if self.tries + 1 >= POLL_LIMIT {
            self.enter(self.given_up())
        } else {
            ControllerInit { tries: (self.tries + 1) as u32, ..self }
        }
    }

    /// The tries made stay below what the stage allows.
    pub open spec fn wf(self) -> bool {
        if self.is_draining() {
            self.tries < DRAIN_LIMIT
        } else {
            self.tries < POLL_LIMIT
        }
    }

    /// An upper bound on the port accesses still to come.
    pub open spec fn accesses_left(self) -> int {
        let stage_cost = 2 * POLL_LIMIT + 2;
        let stages: int = match self.stage {
            Stage::Drain => 8,
            Stage::AskConfig => 7,
            Stage::ConfigReply => 6,
            Stage::WriteConfig => 5,
            Stage::ConfigValue => 4,
            Stage::EnableScanning => 3,
            Stage::ScanningReply => 2,
            Stage::FinalDrain => 1,
            Stage::Ready | Stage::Failed => 0,
        };
        if self.is_finished() {
            0
        } else {
            stages * stage_cost - 2 * self.tries - if self.ready {
                1int
            } else {
                0
            }
        }
    }

    pub fn new() -> (r: Self)
        ensures
            r == Self::start(),
            r.wf(),
            r.stage is Drain && !r.ready && r.tries == 0 && r.answer is None,
    {
        ControllerInit { stage: Stage::Drain, ready: false, tries: 0, config: 0, answer: None }
    }

    /// The port access to make next.
    pub fn request(&self) -> (r: Request)
        ensures
            r == self.asks(),
    {
        if matches!(self.stage, Stage::Ready | Stage::Failed) {
            return Request::Nothing;
        }
        if !self.ready {
            return Request::ReadStatus;
        }
        match self.stage {
            Stage::AskConfig => Request::WriteCommand(COMMAND_READ_CONFIG),
            Stage::WriteConfig => Request::WriteCommand(COMMAND_WRITE_CONFIG),
            Stage::ConfigValue => Request::WriteData(self.new_config()),
            Stage::EnableScanning => Request::WriteData(KEYBOARD_ENABLE_SCANNING),
            _ => Request::ReadData,
        }
    }

    /// The configuration byte that is written back.
    pub fn new_config(&self) -> (r: u8)
        ensures
            r == wanted_config(self.config),
    {
        (self.config | CONFIG_KEYBOARD_IRQ_ENABLE | CONFIG_TRANSLATE)
            & !CONFIG_KEYBOARD_CLOCK_DISABLE
    }

    fn next_stage(&mut self, stage: Stage)
        ensures
            *final(self) == old(self).enter(stage),
    {
        self.stage = stage;
        self.ready = false;
        self.tries = 0;
    }

    /// Takes the answer to `request`. What a write is answered with does not
    /// matter.
    pub fn advance(&mut self, reply: u8)
        requires
            old(self).wf(),
        ensures
            *final(self) == old(self).after(reply),
            final(self).wf(),
    {
        let draining = matches!(self.stage, Stage::Drain | Stage::FinalDrain);
        let sending = matches!(
            self.stage,
            Stage::AskConfig | Stage::WriteConfig | Stage::ConfigValue | Stage::EnableScanning
        );
        let following = match self.stage {
            Stage::Drain => Stage::AskConfig,
            Stage::AskConfig => Stage::ConfigReply,
            Stage::ConfigReply => Stage::WriteConfig,
            Stage::WriteConfig => Stage::ConfigValue,
            Stage::ConfigValue => Stage::EnableScanning,
            Stage::EnableScanning => Stage::ScanningReply,
            Stage::ScanningReply => Stage::FinalDrain,
            Stage::FinalDrain => Stage::Ready,
            Stage::Ready | Stage::Failed => {
                return ;
            },
        };
        if draining {
            if !self.ready {
                if reply & STATUS_OUTPUT_FULL == 0 {
                    self.next_stage(following);
                } else {
                    self.ready = true;
                }
            } else if self.tries + 1 >= DRAIN_LIMIT as u32 {
                self.next_stage(following);
            } else {
                self.ready = false;
                self.tries = self.tries + 1;
            }
            return ;
        }
        if self.ready {
            if matches!(self.stage, Stage::ConfigReply) {
                self.config = reply;
            } else if matches!(self.stage, Stage::ScanningReply) {
                self.answer = Some(reply);
            }
            self.next_stage(following);
            return ;
        }
        let now_ready = if sending {
            reply & STATUS_INPUT_FULL == 0
        } else {
            reply & STATUS_OUTPUT_FULL != 0
        };
        if now_ready {
            self.ready = true;
        } else if self.tries + 1 >= POLL_LIMIT {
            if matches!(self.stage, Stage::ScanningReply) {
                self.next_stage(Stage::FinalDrain);
            } else {
                self.next_stage(Stage::Failed);
            }
        } else {
            self.tries = self.tries + 1;
        }
    }

    /// How it went, once there is nothing left to do.
    pub fn outcome(&self) -> (r: Option<Result<(), InitError>>)
        ensures
            r == match self.stage {
                Stage::Ready => Some(Ok(())),
                Stage::Failed => Some(Err(InitError::ControllerTimeout)),
                _ => None,
            },
    {
        match self.stage {
            Stage::Ready => Some(Ok(())),
            Stage::Failed => Some(Err(InitError::ControllerTimeout)),
            _ => None,
        }
    }
}

/// Whatever the controller answers, every access brings the end nearer: a
/// missing or wedged controller cannot hang the machine.
pub proof fn setting_up_the_controller_ends(state: ControllerInit, reply: u8)
    requires
        state.wf(),
        !state.is_finished(),
    ensures
        state.accesses_left() > 0,
        0 <= state.after(reply).accesses_left() < state.accesses_left(),
        state.after(reply).wf(),
{
}

/// The controller is never written while its input buffer is full: a write is
/// asked for only after a status read that said there is room.
pub proof fn the_controller_is_written_only_when_it_listens(state: ControllerInit, reply: u8)
    requires
        state.wf(),
        !state.ready,
    ensures
        (state.after(reply).asks() is WriteCommand || state.after(reply).asks() is WriteData)
            ==> state.asks() is ReadStatus && reply & STATUS_INPUT_FULL == 0,
{
}

/// Setting up fails only once the controller has been polled as often as is
/// allowed without an answer.
pub proof fn setting_up_fails_only_by_timing_out(state: ControllerInit, reply: u8)
    requires
        state.wf(),
        !state.is_finished(),
        state.after(reply).stage is Failed,
    ensures
        state.asks() is ReadStatus,
        state.tries + 1 == POLL_LIMIT,
        state.is_sending() || state.stage is ConfigReply,
{
}

/// The bits of the status register.
proof fn status_bits(status: u8)
    by (bit_vector)
    ensures
        status & 1 != 0 <==> status % 2 == 1,
        status & 2 != 0 <==> status / 2 % 2 == 1,
        status & 0x20 != 0 <==> status / 0x20 % 2 == 1,
{
}

/// What is asked of the controller, and in which order: the command that asks
/// for the configuration, the byte itself, the command that takes the new one,
/// that byte, and the keyboard's command to send scancodes. What the
/// controller says of its configuration and what the keyboard answers are
/// remembered.
pub proof fn the_controller_is_asked_in_order(state: ControllerInit, reply: u8)
    requires
        state.wf(),
        state.ready,
    ensures
        ({
            let next = state.after(reply);
            match state.stage {
                Stage::AskConfig => state.asks() == Request::WriteCommand(0x20) && next.stage
                    == Stage::ConfigReply,
                Stage::ConfigReply => state.asks() == Request::ReadData && next.stage
                    == Stage::WriteConfig && next.config == reply,
                Stage::WriteConfig => state.asks() == Request::WriteCommand(0x60) && next.stage
                    == Stage::ConfigValue && next.config == state.config,
                Stage::ConfigValue => state.asks() == Request::WriteData(
                    wanted_config(state.config),
                ) && next.stage == Stage::EnableScanning,
                Stage::EnableScanning => state.asks() == Request::WriteData(0xF4) && next.stage
                    == Stage::ScanningReply,
                Stage::ScanningReply => state.asks() == Request::ReadData && next.stage
                    == Stage::FinalDrain && next.answer == Some(reply),
                Stage::Drain | Stage::FinalDrain => state.asks() == Request::ReadData && if state.tries
                    < 15 {
                    next.stage == state.stage && !next.ready && next.tries == state.tries + 1
                } else {
                    next.stage == if state.stage is Drain {
                        Stage::AskConfig
                    } else {
                        Stage::Ready
                    }
                },
                Stage::Ready | Stage::Failed => state.asks() == Request::Nothing && next == state,
            }
        }),
        !(state.stage is Ready) && !(state.stage is Failed) && !(state.stage is Drain) && !(
        state.stage is FinalDrain) ==> !state.after(reply).ready && state.after(reply).tries == 0,
        !(state.stage is ConfigReply) ==> state.after(reply).config == state.config,
        !(state.stage is ScanningReply) ==> state.after(reply).answer == state.answer,
{
}

/// What polling the status leads to. A write waits for bit 1 to be clear, a
/// read for bit 0 to be set, and draining goes on while bit 0 is set. Two
/// hundred thousand polls without that are too many; only the keyboard's own
/// answer is then done without.
pub proof fn the_status_is_polled_for_the_right_bit(state: ControllerInit, status: u8)
    requires
        state.wf(),
        !state.ready,
        !state.is_finished(),
    ensures
        state.asks() == Request::ReadStatus,
        ({
            let next = state.after(status);
            let full = status % 2 == 1;
            let busy = status / 2 % 2 == 1;
            let waits = match state.stage {
                Stage::Drain | Stage::FinalDrain => false,
                Stage::ConfigReply | Stage::ScanningReply => !full,
                _ => busy,
            };
            &&& next.config == state.config
            &&& next.answer == state.answer
            &&& state.stage is Drain || state.stage is FinalDrain ==> if full {
                next.stage == state.stage && next.ready && next.tries == state.tries
            } else {
                next.stage == (if state.stage is Drain {
                    Stage::AskConfig
                } else {
                    Stage::Ready
                }) && !next.ready
            }
            &&& !(state.stage is Drain) && !(state.stage is FinalDrain) && !waits ==> next.stage
                == state.stage && next.ready
            &&& waits && state.tries < 199_999 ==> next.stage == state.stage && !next.ready
                && next.tries == state.tries + 1
            &&& waits && state.tries == 199_999 ==> next.stage == if state.stage is ScanningReply {
                Stage::FinalDrain
            } else {
                Stage::Failed
            }
        }),
{
    status_bits(status);
}

/// The interrupt handler's part: takes every byte the controller has ready,
/// but no more than `DRAIN_LIMIT`.
///
/// It reads the status register instead of trusting that the interrupt meant
/// "a byte is waiting": one that was latched while the line was masked is
/// delivered with nothing to read, and reading anyway would return a stale
/// byte, a phantom keypress.
#[derive(Debug, Clone, Copy, PartialEq, Eq, Structural)]
pub struct IrqDrain {
    /// Bytes that may still be taken.
    pub left: usize,
    /// The status that said a byte is waiting.
    pub status: Option<u8>,
}

impl IrqDrain {
    pub open spec fn asks(self) -> Request {
        if self.status is Some {
            Request::ReadData
        } else if self.left > 0 {
            Request::ReadStatus
        } else {
            Request::Nothing
        }
    }

    /// Whether the next byte goes into the queue: mouse bytes have no reader,
    /// but must still be read out or they would block the keyboard's.
    pub open spec fn is_scancode(self) -> bool {
        self.status matches Some(status) && status & STATUS_AUX_DATA == 0
    }

    pub fn new() -> (r: Self)
        ensures
            r.left == DRAIN_LIMIT,
            r.left == 16,
            r.status is None,
    {
        IrqDrain { left: DRAIN_LIMIT, status: None }
    }

    /// The port access to make next.
    pub fn request(&self) -> (r: Request)
        ensures
            r == self.asks(),
            r is ReadData <==> self.status is Some,
            r is ReadStatus <==> self.status is None && self.left > 0,
            r is Nothing <==> self.status is None && self.left == 0,
    {
        if self.status.is_some() {
            Request::ReadData
        } else if self.left > 0 {
            Request::ReadStatus
        } else {
            Request::Nothing
        }
    }

    /// Takes the answer to `request`. Returns a scancode for which there was
    /// no room, if this is one.
    pub fn advance(&mut self, queue: &mut ScancodeQueue, reply: u8) -> (r: Option<u8>)
        ensures
            old(self).status matches Some(status) ==> (final(queue)@.len() > old(queue)@.len() <==> (
            status / 0x20) % 2 == 0 && old(queue)@.len() < 64),
            old(self).status is None && old(self).left > 0 ==> (final(self).status is Some <==> reply
                % 2 == 1),
            match old(self).asks() {
                Request::ReadStatus => {
                    &&& r is None
                    &&& final(queue)@ == old(queue)@
                    &&& *final(self) == if reply & STATUS_OUTPUT_FULL == 0 {
                        IrqDrain { left: 0, status: None }
                    } else {
                        IrqDrain { left: (old(self).left - 1) as usize, status: Some(reply) }
                    }
                },
                Request::ReadData => {
                    &&& *final(self) == (IrqDrain { left: old(self).left, status: None })
                    &&& final(queue)@ == if old(self).is_scancode() && old(queue)@.len()
                        < QUEUE_CAPACITY {
                        old(queue)@.push(reply)
                    } else {
                        old(queue)@
                    }
                    &&& r == if old(self).is_scancode() && old(queue)@.len() >= QUEUE_CAPACITY {
                        Some(reply)
                    } else {
                        None
                    }
                },
                _ => r is None && *final(self) == *old(self) && final(queue)@ == old(queue)@,
            },
    {
        proof {
            status_bits(reply);
            if let Some(status) = self.status {
                status_bits(status);
            }
        }
        match self.status {
            Some(status) => {
                self.status = None;
                if status & STATUS_AUX_DATA == 0 {
                    let stored = queue.push(reply);
                    if !stored {
                        return Some(reply);
                    }
                }
                None
            },
            None => {
                if self.left > 0 {
                    if reply & STATUS_OUTPUT_FULL == 0 {
                        self.left = 0;
                    } else {
                        self.left = self.left - 1;
                        self.status = Some(reply);
                    }
                }
                None
            },
        }
    }
}

} // verus!
