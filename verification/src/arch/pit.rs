//! Intel 8253/8254 programmable interval timer, channel 0 only.

use crate::arch::port::PortWrite;
use vstd::prelude::*;

verus! {

pub const CHANNEL_0_DATA: u16 = 0x40;

pub const COMMAND: u16 = 0x43;

/// Channel 0 (bits 7-6 = 00), lobyte/hibyte access (bits 5-4 = 11), mode 3
/// "square wave generator" (bits 3-1 = 011), binary not BCD (bit 0 = 0).
pub const COMMAND_CHANNEL0_MODE3: u8 = 0x36;

/// The timer's fixed input clock frequency.
pub const PIT_INPUT_FREQUENCY_HZ: u32 = 1_193_182;

/// What the input clock is divided by, of which the chip takes the low 16
/// bits.
pub open spec fn divisor_of(frequency_hz: u32) -> int {
    PIT_INPUT_FREQUENCY_HZ as int / frequency_hz as int % 0x1_0000
}

/// The writes that program channel 0 to fire at approximately
/// `frequency_hz`: the command byte first, then both divisor bytes in the
/// order that the command byte selected. A divisor of more than 16 bits loses
/// its upper part, and one of zero stays zero, so it fires at about that
/// frequency from 19 Hz up to the input clock.
pub fn init(frequency_hz: u32) -> (r: [PortWrite; 3])
    requires
        frequency_hz != 0,
    ensures
        r@.len() == 3,
        r@[0] == (PortWrite { port: COMMAND, value: COMMAND_CHANNEL0_MODE3 }),
        r@[1].port == CHANNEL_0_DATA,
        r@[2].port == CHANNEL_0_DATA,
        r@[1].value + 0x100 * r@[2].value == divisor_of(frequency_hz),
        r@[0].port == 0x43 && r@[0].value == 0x36,
        r@[1].port == 0x40 && r@[2].port == 0x40,
        r@[1].value + 0x100 * r@[2].value == 1_193_182int / frequency_hz as int % 0x1_0000,
{
    let divisor: u16 = (PIT_INPUT_FREQUENCY_HZ / frequency_hz) as u16;
    assert(divisor == divisor_of(frequency_hz)) by {
        let quotient: u32 = (PIT_INPUT_FREQUENCY_HZ / frequency_hz) as u32;
        assert(quotient as u16 == quotient % 0x1_0000) by (bit_vector);
    }
    assert((divisor & 0xFF) as u8 + 0x100 * ((divisor >> 8) as u8) == divisor) by (bit_vector);
    [
        PortWrite { port: COMMAND, value: COMMAND_CHANNEL0_MODE3 },
        PortWrite { port: CHANNEL_0_DATA, value: (divisor & 0xFF) as u8 },
        PortWrite { port: CHANNEL_0_DATA, value: (divisor >> 8) as u8 },
    ]
}

/// From 19 Hz up to the input clock the divisor fits the chip, and the timer
/// never fires more than one clock of the input too early.
pub proof fn the_timer_keeps_its_frequency(frequency_hz: u32)
    requires
        19 <= frequency_hz <= PIT_INPUT_FREQUENCY_HZ,
    ensures
        1 <= divisor_of(frequency_hz),
        divisor_of(frequency_hz) * frequency_hz <= PIT_INPUT_FREQUENCY_HZ < (divisor_of(
            frequency_hz,
        ) + 1) * frequency_hz,
{
    let n = PIT_INPUT_FREQUENCY_HZ as int;
    let d = frequency_hz as int;
    let q = n / d;
    vstd::arithmetic::div_mod::lemma_fundamental_div_mod(n, d);
    vstd::arithmetic::div_mod::lemma_mod_bound(n, d);
    assert(q * d <= n < (q + 1) * d) by (nonlinear_arith)
        requires
            n == d * q + n % d,
            0 <= n % d < d,
    ;
    assert(1 <= q < 0x1_0000) by (nonlinear_arith)
        requires
            n == 1_193_182,
            q * d <= n < (q + 1) * d,
            19 <= d <= n,
    ;
}

} // verus!
