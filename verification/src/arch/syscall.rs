//! How ring 3 asks the kernel for something.
//!
//! `syscall` is fast because it does almost nothing: it loads `CS`/`SS` from
//! `STAR`, jumps to `LSTAR`, saves the return address in `RCX` and the flags
//! in `R11`, and masks the flags in `FMASK`. It does **not** change the stack
//! pointer. Until the entry stub has swapped in a kernel stack, the kernel is
//! running on memory the user chose, which is why `FMASK` clears `IF`:
//! nothing may be delivered in that window.

use crate::arch::gdt::{
    KERNEL_CODE_SELECTOR, SYSRET_SELECTOR_BASE, USER_CODE_SELECTOR, USER_DATA_SELECTOR,
};
use crate::arch::msr::{
    MsrWrite, IA32_EFER, IA32_FMASK, IA32_KERNEL_GS_BASE, IA32_LSTAR, IA32_STAR,
};
use vstd::prelude::*;

verus! {

pub const EFER_SCE: u64 = 0x1;

/// Cleared on entry: interrupts (no stack yet), the direction flag (so string
/// instructions in the kernel start forwards) and alignment checks.
pub const FMASK: u64 = 0x4_0600;

/// The masked flags are bits 9, 10 and 18.
pub proof fn the_masked_flags_are_interrupts_direction_and_alignment_check()
    ensures
        FMASK == (1u64 << 9) | (1u64 << 10) | (1u64 << 18),
{
    assert(0x4_0600u64 == (1u64 << 9) | (1u64 << 10) | (1u64 << 18)) by (bit_vector);
}

/// What the entry stub reaches through `gs`.
#[derive(Debug, Clone, Copy, PartialEq, Eq, Structural)]
pub struct CpuLocal {
    /// Where the kernel's syscall stack ends. Offset 0.
    pub kernel_stack_top: u64,
    /// Where the user's stack pointer is kept while the kernel runs. Offset
    /// 8.
    pub user_stack: u64,
}

impl CpuLocal {
    /// The words as the stub reaches them, by offset.
    pub fn words(&self) -> (r: [u64; 2])
        ensures
            r@ =~= seq![self.kernel_stack_top, self.user_stack],
    {
        [self.kernel_stack_top, self.user_stack]
    }
}

/// The registers a syscall arrives in, as the stub leaves them on the kernel
/// stack. `rax` carries the number in and the result out.
#[derive(Debug, Clone, Copy, PartialEq, Eq, Structural)]
pub struct SyscallFrame {
    pub rax: u64,
    pub rdi: u64,
    pub rsi: u64,
    pub rdx: u64,
    pub r10: u64,
    pub r8: u64,
    pub r9: u64,
    /// Where `sysretq` will return to, and with which flags. The instruction
    /// put them here; nothing else may.
    pub user_rip: u64,
    pub user_rflags: u64,
}

impl SyscallFrame {
    /// The frame as the stub pushes it, lowest address first.
    pub open spec fn layout(self) -> Seq<u64> {
        seq![
            self.rax,
            self.rdi,
            self.rsi,
            self.rdx,
            self.r10,
            self.r8,
            self.r9,
            self.user_rip,
            self.user_rflags,
        ]
    }

    pub fn words(&self) -> (r: [u64; 9])
        ensures
            r@ =~= self.layout(),
            r@[0] == self.rax,
            r@[1] == self.rdi,
            r@[2] == self.rsi,
            r@[3] == self.rdx,
            r@[4] == self.r10,
            r@[5] == self.r8,
            r@[6] == self.r9,
            r@[7] == self.user_rip,
            r@[8] == self.user_rflags,
    {
        [
            self.rax,
            self.rdi,
            self.rsi,
            self.rdx,
            self.r10,
            self.r8,
            self.r9,
            self.user_rip,
            self.user_rflags,
        ]
    }

    /// The frame that some words on the stack are.
    pub fn from_words(words: &[u64; 9]) -> (r: Self)
        ensures
            r.layout() =~= words@,
            r.rax == words@[0],
            r.rdi == words@[1],
            r.rsi == words@[2],
            r.rdx == words@[3],
            r.r10 == words@[4],
            r.r8 == words@[5],
            r.r9 == words@[6],
            r.user_rip == words@[7],
            r.user_rflags == words@[8],
    {
        SyscallFrame {
            rax: words[0],
            rdi: words[1],
            rsi: words[2],
            rdx: words[3],
            r10: words[4],
            r8: words[5],
            r9: words[6],
            user_rip: words[7],
            user_rflags: words[8],
        }
    }
}

/// The place for what the kernel does with a syscall. It can be set again
/// after the kernel has moved its image.
pub struct HandlerSlot<H> {
    pub handler: Option<H>,
}

impl<H> HandlerSlot<H> {
    pub fn new() -> (r: Self)
        ensures
            r.handler is None,
    {
        HandlerSlot { handler: None }
    }
}

/// Sends syscalls to `handler`.
pub fn set_handler<H>(slot: &mut HandlerSlot<H>, handler: H)
    ensures
        final(slot).handler == Some(handler),
{
    slot.handler = Some(handler);
}

/// Called by the stub with the frame it just built on the kernel stack.
pub fn dispatch<H: Fn(SyscallFrame) -> SyscallFrame>(slot: &HandlerSlot<H>, frame: &mut SyscallFrame)
    requires
        slot.handler matches Some(handler) ==> call_requires(handler, (*old(frame),)),
    ensures
        match slot.handler {
            Some(handler) => call_ensures(handler, (*old(frame),), *final(frame)),
            None => *final(frame) == (SyscallFrame { rax: u64::MAX, ..*old(frame) }),
        },
{
    match &slot.handler {
        // Nobody is listening yet. Saying so beats returning a number the
        // caller would read as success.
        None => {
            frame.rax = 0xFFFF_FFFF_FFFF_FFFF;
        },
        Some(handler) => {
            *frame = handler(*frame);
        },
    }
}

/// What `STAR` holds: the selectors that `sysret` and `syscall` count from.
pub open spec fn star() -> int {
    SYSRET_SELECTOR_BASE * 0x1_0000_0000_0000 + KERNEL_CODE_SELECTOR * 0x1_0000_0000
}

/// `sysretq` loads `SS` from `STAR[63:48] + 8` and `CS` from
/// `STAR[63:48] + 16`, both at privilege level 3: these are the numbers of a
/// program's selectors. It relates selectors only. The table that `Gdt::new`
/// builds holds no descriptors for them; whoever runs programs adds those.
pub proof fn sysret_returns_to_the_program()
    ensures
        star() / 0x1_0000_0000_0000 + 8 + 3 == USER_DATA_SELECTOR,
        star() / 0x1_0000_0000_0000 + 16 + 3 == USER_CODE_SELECTOR,
        star() / 0x1_0000_0000 % 0x1_0000 == KERNEL_CODE_SELECTOR,
        USER_CODE_SELECTOR % 4 == 3,
        USER_DATA_SELECTOR % 4 == 3,
{
}

/// What turns `syscall` on and points it at `entry`: what the stub finds
/// through `gs`, at `cpu_local`, and the registers to write, in order. `efer`
/// is what that register holds now.
pub fn init(kernel_stack_top: u64, entry: u64, cpu_local: u64, efer: u64) -> (r: (
    CpuLocal,
    [MsrWrite; 5],
))
    ensures
        r.0 == (CpuLocal { kernel_stack_top, user_stack: 0 }),
        r.1@ =~= seq![
            MsrWrite { msr: IA32_STAR, value: star() as u64 },
            MsrWrite { msr: IA32_LSTAR, value: entry },
            MsrWrite { msr: IA32_FMASK, value: FMASK },
            MsrWrite { msr: IA32_KERNEL_GS_BASE, value: cpu_local },
            MsrWrite { msr: IA32_EFER, value: efer | EFER_SCE },
        ],
        r.1@[0].msr == 0xC000_0081 && r.1@[0].value == 0x0020_0008_0000_0000,
        r.1@[1].msr == 0xC000_0082 && r.1@[1].value == entry,
        r.1@[2].msr == 0xC000_0084 && r.1@[2].value == 0x4_0600,
        r.1@[3].msr == 0xC000_0102 && r.1@[3].value == cpu_local,
        r.1@[4].msr == 0xC000_0080 && r.1@[4].value == efer | 1,
{
    let base: u64 = SYSRET_SELECTOR_BASE as u64;
    let code: u64 = KERNEL_CODE_SELECTOR as u64;
    assert(base < 0x1_0000 && code < 0x1_0000 ==> (base << 48) | (code << 32) == base
        * 0x1_0000_0000_0000 + code * 0x1_0000_0000) by (bit_vector);
    let star: u64 = (base << 48) | (code << 32);
    (
        CpuLocal { kernel_stack_top, user_stack: 0 },
        [
            MsrWrite { msr: IA32_STAR, value: star },
            MsrWrite { msr: IA32_LSTAR, value: entry },
            MsrWrite { msr: IA32_FMASK, value: FMASK },
            MsrWrite { msr: IA32_KERNEL_GS_BASE, value: cpu_local },
            MsrWrite { msr: IA32_EFER, value: efer | EFER_SCE },
        ],
    )
}

} // verus!
