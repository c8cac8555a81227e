//! What the kernel does when the processor interrupts it: which gate each
//! vector has, and what is to be done about each interrupt.
//!
//! Every exception the processor can raise has a gate of its own, and every
//! other vector at least a silent one, so that nothing in flight while
//! interrupts are being set up can reach a vector with no gate.

use crate::arch::gdt::{DOUBLE_FAULT_IST_INDEX, KERNEL_CODE_SELECTOR};
use crate::arch::idt::{Idt, IdtEntry, GATE_TYPE_INTERRUPT};
use crate::arch::keyboard::InitError;
use crate::hal::hex::{alternate_hex, decimal};
use crate::hal::timer::TickCounter;
use vstd::prelude::*;
use vstd::string::*;

verus! {

use crate::hal::hex::{decimal_digits, prefixed_hex};

pub const VECTOR_DIVIDE_ERROR: u8 = 0;

pub const VECTOR_NMI: u8 = 2;

pub const VECTOR_BREAKPOINT: u8 = 3;

pub const VECTOR_DOUBLE_FAULT: u8 = 8;

pub const VECTOR_GENERAL_PROTECTION: u8 = 13;

pub const VECTOR_PAGE_FAULT: u8 = 14;

/// The timer's line, once the interrupt controller has been remapped.
pub const VECTOR_TIMER: u8 = 0x20;

/// The keyboard's line, once the interrupt controller has been remapped.
pub const VECTOR_KEYBOARD: u8 = 0x21;

/// Whether the processor pushes an error code for this vector. The stubs
/// have to agree: a stub that expects one where there is none shifts every
/// field of the frame by eight bytes, and what it reads as `rip` is whatever
/// came before.
pub open spec fn has_error_code(vector: u8) -> bool {
    vector == 8 || 10 <= vector <= 14 || vector == 17 || vector == 21 || vector == 29 || vector
        == 30
}

/// Whether the processor pushes an error code for this vector.
pub fn pushes_error_code(vector: u8) -> (r: bool)
    ensures
        r == has_error_code(vector),
{
    matches!(vector, 8 | 10 | 11 | 12 | 13 | 14 | 17 | 21 | 29 | 30)
}

/// The exceptions that have no handler of their own, in ascending order.
pub open spec fn other_exceptions() -> Seq<u8> {
    seq![
        1, 4, 5, 6, 7, 9, 10, 11, 12, 15, 16, 17, 18, 19, 20, 21, 22, 23, 24, 25, 26, 27, 28, 29,
        30, 31,
    ]
}

/// The gates that `install_gates` adds on top of the named ones, each with
/// what its stub assumes about the error code. Most of these a process can
/// raise on purpose, and an exception with no gate becomes a general
/// protection fault whose error code has nothing to do with anything.
pub fn other_exception_gates() -> (r: [(u8, bool); 26])
    ensures
        forall|i: int| 0 <= i < 26 ==> (#[trigger] r@[i]).0 == other_exceptions()[i],
        forall|i: int| 0 <= i < 26 ==> (#[trigger] r@[i]).1 == has_error_code(r@[i].0),
{
    [
        (1, false),
        (4, false),
        (5, false),
        (6, false),
        (7, false),
        (9, false),
        (10, true),
        (11, true),
        (12, true),
        (15, false),
        (16, false),
        (17, true),
        (18, false),
        (19, false),
        (20, false),
        (21, true),
        (22, false),
        (23, false),
        (24, false),
        (25, false),
        (26, false),
        (27, false),
        (28, false),
        (29, true),
        (30, true),
        (31, false),
    ]
}

/// Every exception is either one of the named ones or one of the others, and
/// none is both.
pub proof fn every_exception_has_one_gate(vector: u8)
    requires
        vector < 32,
    ensures
        is_named(vector) <==> !other_exceptions().contains(vector),
        other_exceptions().no_duplicates(),
        other_exceptions().len() == 26,
{
    let others = other_exceptions();
    assert(others.len() == 26);
    if !is_named(vector) {
        let at: int = if vector == 1 {
            0
        } else if 4 <= vector <= 7 {
            vector - 3
        } else if 9 <= vector <= 12 {
            vector - 4
        } else {
            vector - 6
        };
        assert(others[at] == vector);
    }
}

/// The exceptions with a handler of their own.
pub open spec fn is_named(vector: u8) -> bool {
    vector == VECTOR_DIVIDE_ERROR || vector == VECTOR_NMI || vector == VECTOR_BREAKPOINT || vector
        == VECTOR_DOUBLE_FAULT || vector == VECTOR_GENERAL_PROTECTION || vector
        == VECTOR_PAGE_FAULT
}

/// What a vector is called.
pub open spec fn name_of(vector: u8) -> &'static str {
    match vector {
        0 => "#DE divide error",
        1 => "#DB debug",
        2 => "NMI",
        3 => "#BP breakpoint",
        4 => "#OF overflow",
        5 => "#BR bound range exceeded",
        6 => "#UD invalid opcode",
        7 => "#NM device not available",
        8 => "#DF double fault",
        10 => "#TS invalid TSS",
        11 => "#NP segment not present",
        12 => "#SS stack-segment fault",
        13 => "#GP general protection",
        14 => "#PF page fault",
        16 => "#MF x87 floating-point",
        17 => "#AC alignment check",
        18 => "#MC machine check",
        19 => "#XM SIMD floating-point",
        20 => "#VE virtualisation",
        21 => "#CP control protection",
        28 => "#HV hypervisor injection",
        29 => "#VC VMM communication",
        30 => "#SX security",
        _ => "reserved exception",
    }
}

/// What to call a vector in the log. Short, because the point of the line is
/// the address and the process, not the vocabulary.
pub fn exception_name(vector: u8) -> (r: &'static str)
    ensures
        r@ == name_of(vector)@,
        r == name_of(vector),
{
    match vector {
        0 => "#DE divide error",
        1 => "#DB debug",
        2 => "NMI",
        3 => "#BP breakpoint",
        4 => "#OF overflow",
        5 => "#BR bound range exceeded",
        6 => "#UD invalid opcode",
        7 => "#NM device not available",
        8 => "#DF double fault",
        10 => "#TS invalid TSS",
        11 => "#NP segment not present",
        12 => "#SS stack-segment fault",
        13 => "#GP general protection",
        14 => "#PF page fault",
        16 => "#MF x87 floating-point",
        17 => "#AC alignment check",
        18 => "#MC machine check",
        19 => "#XM SIMD floating-point",
        20 => "#VE virtualisation",
        21 => "#CP control protection",
        28 => "#HV hypervisor injection",
        29 => "#VC VMM communication",
        30 => "#SX security",
        _ => "reserved exception",
    }
}

/// Whether the interrupt that pushed this `CS` happened in ring 3.
///
/// The low two bits of a pushed code selector are the privilege level the
/// processor was running at. Ring 3 is the only level a process runs in, and
/// the kernel's own selector has a level of zero. This is the whole of how
/// the kernel tells "the process did something" from "the kernel did
/// something".
pub fn came_from_ring_3(cs: u64) -> (r: bool)
    ensures
        r == from_ring_3(cs),
        r == (cs % 4 == 3),
{
    assert(cs & 3 == cs % 4) by (bit_vector);
    cs & 3 == 3
}

/// Whether a code selector has privilege level 3.
pub open spec fn from_ring_3(cs: u64) -> bool {
    cs % 4 == 3
}

/// What the kernel is told about a fault a process caused.
#[derive(Debug, Clone, Copy, PartialEq, Eq)]
pub struct UserFault {
    pub vector: u8,
    /// What the vector is called, so that the kernel need not keep its own
    /// copy of the table.
    pub name: &'static str,
    /// What the processor pushed, when the vector pushes one; zero otherwise.
    pub error_code: u64,
    /// The address `CR2` held, for `#PF`; zero otherwise.
    pub address: u64,
    /// Where in the program it happened.
    pub rip: u64,
}

/// What the handler of an interrupt looks at, of what the stubs and the
/// processor pushed.
#[derive(Debug, Clone, Copy, PartialEq, Eq, Structural)]
pub struct InterruptStackFrame {
    pub vector: u64,
    pub error_code: u64,
    pub rip: u64,
    pub cs: u64,
}

impl InterruptStackFrame {
    /// The vector, of which there are only 256.
    pub open spec fn which(self) -> u8 {
        (self.vector % 256) as u8
    }
}

/// How much a line of the log matters.
#[derive(Debug, Clone, Copy, PartialEq, Eq, Structural)]
pub enum Severity {
    Info,
    Warn,
    Error,
}

/// A line for the log about an interrupt.
#[derive(Debug, Clone, Copy, PartialEq, Eq, Structural)]
pub enum Report {
    DivideError { rip: u64 },
    Nmi,
    UserBreakpoint { rip: u64 },
    KernelBreakpoint,
    Ticks { count: u64 },
    GeneralProtection { error_code: u64, rip: u64 },
    PageFault { address: u64, error_code: u64, rip: u64 },
    Other { vector: u8, error_code: u64, rip: u64 },
    /// A process faulted before the kernel could take faults.
    NoFaultHandler,
    /// A double fault, on the stack at an address: the one that the kernel
    /// set aside for it, if all is well.
    DoubleFault { stack: u64 },
}

impl Report {
    pub open spec fn text(self) -> Seq<char> {
        match self {
            Report::DivideError { rip } => "HARLAN: #DE divide error at rip="@ + prefixed_hex(
                rip as nat,
            ),
            Report::Nmi => "HARLAN: NMI received (non-fatal)"@,
            Report::UserBreakpoint { rip } => "HARLAN: #BP breakpoint from ring 3 at rip="@
                + prefixed_hex(rip as nat),
            Report::KernelBreakpoint => "HARLAN: breakpoint handler OK"@,
            Report::Ticks { count } => "HARLAN: ticks="@ + decimal_digits(count as nat),
            Report::GeneralProtection { error_code, rip } => "HARLAN: #GP error_code="@
                + prefixed_hex(error_code as nat) + " at rip="@ + prefixed_hex(rip as nat),
            Report::PageFault { address, error_code, rip } => "HARLAN: #PF accessing "@
                + prefixed_hex(address as nat) + ", error_code="@ + prefixed_hex(error_code as nat)
                + ", rip="@ + prefixed_hex(rip as nat),
            Report::Other { vector, error_code, rip } => "HARLAN: "@ + name_of(vector)@
                + " (vector="@ + decimal_digits(vector as nat) + ") error_code="@ + prefixed_hex(
                error_code as nat,
            ) + " at rip="@ + prefixed_hex(rip as nat),
            Report::NoFaultHandler =>
            "HARLAN: a process faulted before the kernel could take faults"@,
            Report::DoubleFault { stack } => "HARLAN: #DF DOUBLE FAULT on the stack at "@
                + prefixed_hex(stack as nat) + " - halting"@,
        }
    }

    pub fn severity(self) -> (r: Severity)
        ensures
            r == match self {
                Report::KernelBreakpoint | Report::Ticks { .. } => Severity::Info,
                Report::Nmi => Severity::Warn,
                _ => Severity::Error,
            },
    {
        match self {
            Report::KernelBreakpoint | Report::Ticks { .. } => Severity::Info,
            Report::Nmi => Severity::Warn,
            _ => Severity::Error,
        }
    }

    /// The line itself.
    pub fn message(self) -> (r: String)
        ensures
            r@ == self.text(),
    {
        match self {
            Report::DivideError { rip } => {
                let mut text = String::from_str("HARLAN: #DE divide error at rip=");
                text.append(alternate_hex(rip).as_str());
                text
            },
            Report::Nmi => String::from_str("HARLAN: NMI received (non-fatal)"),
            Report::UserBreakpoint { rip } => {
                let mut text = String::from_str("HARLAN: #BP breakpoint from ring 3 at rip=");
                text.append(alternate_hex(rip).as_str());
                text
            },
            Report::KernelBreakpoint => String::from_str("HARLAN: breakpoint handler OK"),
            Report::Ticks { count } => {
                let mut text = String::from_str("HARLAN: ticks=");
                text.append(decimal(count).as_str());
                text
            },
            Report::GeneralProtection { error_code, rip } => {
                let mut text = String::from_str("HARLAN: #GP error_code=");
                text.append(alternate_hex(error_code).as_str());
                text.append(" at rip=");
                text.append(alternate_hex(rip).as_str());
                text
            },
            Report::PageFault { address, error_code, rip } => {
                let mut text = String::from_str("HARLAN: #PF accessing ");
                text.append(alternate_hex(address).as_str());
                text.append(", error_code=");
                text.append(alternate_hex(error_code).as_str());
                text.append(", rip=");
                text.append(alternate_hex(rip).as_str());
                text
            },
            Report::Other { vector, error_code, rip } => {
                let mut text = String::from_str("HARLAN: ");
                text.append(exception_name(vector));
                text.append(" (vector=");
                text.append(decimal(vector as u64).as_str());
                text.append(") error_code=");
                text.append(alternate_hex(error_code).as_str());
                text.append(" at rip=");
                text.append(alternate_hex(rip).as_str());
                text
            },
            Report::NoFaultHandler => String::from_str(
                "HARLAN: a process faulted before the kernel could take faults",
            ),
            Report::DoubleFault { stack } => {
                let mut text = String::from_str("HARLAN: #DF DOUBLE FAULT on the stack at ");
                text.append(alternate_hex(stack).as_str());
                text.append(" - halting");
                text
            },
        }
    }
}

/// One thing to do about an interrupt. They are done in order; the machine
/// does not come back from `EndProcess` or `Halt`.
#[derive(Debug, PartialEq, Eq)]
pub enum Action<T, U> {
    Log(Report),
    /// Tell the interrupt controller that the interrupt has been seen.
    SendEoi,
    /// Take what the keyboard has sent.
    ReadKeyboard,
    /// Call what the timer is to call.
    Tick(T),
    /// Hand the fault to the kernel, which ends the process.
    EndProcess(U, UserFault),
    /// Stop the machine where it is.
    Halt,
}

/// What the handlers remember between interrupts: the ticks counted, what
/// the timer calls after counting, and who is told when a process faults.
pub struct Interrupts<T, U> {
    pub ticks: u64,
    pub tick_handler: Option<T>,
    pub user_fault_handler: Option<U>,
}

impl<T, U> Interrupts<T, U> {
    pub fn new() -> (r: Self)
        ensures
            r.ticks == 0,
            r.tick_handler is None,
            r.user_fault_handler is None,
    {
        Interrupts { ticks: 0, tick_handler: None, user_fault_handler: None }
    }

    /// What follows a fault that the processor cannot carry on from. One
    /// from ring 3 belongs to the process; one from the kernel stops the
    /// machine.
    pub open spec fn fatal(self, frame: InterruptStackFrame, address: u64) -> Seq<Action<T, U>> {
        if !from_ring_3(frame.cs) {
            seq![Action::Halt]
        } else {
            match self.user_fault_handler {
                Some(handler) => seq![
                    Action::EndProcess(
                        handler,
                        UserFault {
                            vector: frame.which(),
                            name: name_of(frame.which()),
                            error_code: frame.error_code,
                            address,
                            rip: frame.rip,
                        },
                    ),
                ],
                None => seq![Action::Log(Report::NoFaultHandler), Action::Halt],
            }
        }
    }

    /// What follows a tick, of which there have been `count` with this one.
    pub open spec fn tick(self, count: u64) -> Seq<Action<T, U>> {
        let counted: Seq<Action<T, U>> = if count % 100 == 0 {
            seq![Action::SendEoi, Action::Log(Report::Ticks { count })]
        } else {
            seq![Action::SendEoi]
        };
        match self.tick_handler {
            Some(handler) => counted.push(Action::Tick(handler)),
            None => counted,
        }
    }

    /// Everything that is to be done about an interrupt.
    pub open spec fn answer(self, frame: InterruptStackFrame, cr2: u64) -> Seq<Action<T, U>> {
        let vector = frame.which();
        let rip = frame.rip;
        let error_code = frame.error_code;
        if vector == VECTOR_DIVIDE_ERROR {
            seq![Action::Log(Report::DivideError { rip })] + self.fatal(frame, 0)
        } else if vector == VECTOR_NMI {
            seq![Action::Log(Report::Nmi)]
        } else if vector == VECTOR_BREAKPOINT {
            if from_ring_3(frame.cs) {
                seq![Action::Log(Report::UserBreakpoint { rip })] + self.fatal(frame, 0)
            } else {
                seq![Action::Log(Report::KernelBreakpoint)]
            }
        } else if vector == VECTOR_TIMER {
            self.tick((self.ticks + 1) as u64)
        } else if vector == VECTOR_KEYBOARD {
            seq![Action::ReadKeyboard, Action::SendEoi]
        } else if vector == VECTOR_GENERAL_PROTECTION {
            seq![Action::Log(Report::GeneralProtection { error_code, rip })] + self.fatal(frame, 0)
        } else if vector == VECTOR_PAGE_FAULT {
            seq![Action::Log(Report::PageFault { address: cr2, error_code, rip })] + self.fatal(
                frame,
                cr2,
            )
        } else {
            seq![Action::Log(Report::Other { vector, error_code, rip })] + self.fatal(frame, 0)
        }
    }
}

impl<T, U> TickCounter for Interrupts<T, U> {
    open spec fn counted(&self) -> u64 {
        self.ticks
    }

    fn ticks(&self) -> (r: u64) {
        self.ticks
    }
}

/// Calls `handler` on every tick, from inside the interrupt handler, with
/// interrupts off.
pub fn set_tick_handler<T, U>(state: &mut Interrupts<T, U>, handler: T)
    ensures
        final(state).tick_handler == Some(handler),
        final(state).ticks == old(state).ticks,
        final(state).user_fault_handler == old(state).user_fault_handler,
{
    state.tick_handler = Some(handler);
}

/// Tells this module what to do when a process faults. Until it is set, a
/// fault in ring 3 stops the machine, like one in the kernel.
pub fn set_user_fault_handler<T, U>(state: &mut Interrupts<T, U>, handler: U)
    ensures
        final(state).user_fault_handler == Some(handler),
        final(state).ticks == old(state).ticks,
        final(state).tick_handler == old(state).tick_handler,
{
    state.user_fault_handler = Some(handler);
}

/// Current tick count, as observed so far.
pub fn ticks<T, U>(state: &Interrupts<T, U>) -> (r: u64)
    ensures
        r == state.ticks,
{
    state.ticks
}

/// Adds what follows a fault that the processor cannot carry on from.
fn push_fatal<T: Copy, U: Copy>(
    state: &Interrupts<T, U>,
    frame: &InterruptStackFrame,
    address: u64,
    actions: &mut Vec<Action<T, U>>,
)
    ensures
        final(actions)@ == old(actions)@ + state.fatal(*frame, address),
{
    if came_from_ring_3(frame.cs) {
        if let Some(handler) = state.user_fault_handler {
            let vector: u8 = (frame.vector % 256) as u8;
            let fault = UserFault {
                vector,
                name: exception_name(vector),
                error_code: frame.error_code,
                address,
                rip: frame.rip,
            };
            actions.push(Action::EndProcess(handler, fault));
            assert(actions@ =~= old(actions)@ + state.fatal(*frame, address));
            return ;
        }
        actions.push(Action::Log(Report::NoFaultHandler));
    }
    actions.push(Action::Halt);
    assert(actions@ =~= old(actions)@ + state.fatal(*frame, address));
}

/// Decides what is to be done about an interrupt. `cr2` is the address that
/// the processor reports for a page fault; it counts for nothing else.
pub fn rust_interrupt_handler<T: Copy, U: Copy>(
    state: &mut Interrupts<T, U>,
    frame: InterruptStackFrame,
    cr2: u64,
) -> (r: Vec<Action<T, U>>)
    requires
        frame.which() == VECTOR_TIMER ==> old(state).ticks < u64::MAX,
    ensures
        r@ == old(state).answer(frame, cr2),
        final(state).ticks == if frame.which() == VECTOR_TIMER {
            (old(state).ticks + 1) as u64
        } else {
            old(state).ticks
        },
        final(state).tick_handler == old(state).tick_handler,
        final(state).user_fault_handler == old(state).user_fault_handler,
{
    let rip: u64 = frame.rip;
    let error_code: u64 = frame.error_code;
    let vector: u8 = (frame.vector % 256) as u8;
    let mut actions: Vec<Action<T, U>> = Vec::new();
    match vector {
        VECTOR_DIVIDE_ERROR => {
            actions.push(Action::Log(Report::DivideError { rip }));
            push_fatal(state, &frame, 0, &mut actions);
        },
        VECTOR_NMI => {
            // Not masked by `cli`, and nothing raises one on purpose:
            // logging and returning is the safe default.
            actions.push(Action::Log(Report::Nmi));
        },
        VECTOR_BREAKPOINT => {
            // The kernel's own self-test breaks on purpose and carries on. A
            // process that does it has no debugger to talk to, so for it a
            // breakpoint is the end.
            if came_from_ring_3(frame.cs) {
                actions.push(Action::Log(Report::UserBreakpoint { rip }));
                push_fatal(state, &frame, 0, &mut actions);
            } else {
                actions.push(Action::Log(Report::KernelBreakpoint));
            }
        },
        VECTOR_TIMER => {
            let count: u64 = state.ticks + 1;
            state.ticks = count;
            actions.push(Action::SendEoi);
            if count.is_multiple_of(100) {
                actions.push(Action::Log(Report::Ticks { count }));
            }
            if let Some(handler) = state.tick_handler {
                actions.push(Action::Tick(handler));
            }
        },
        VECTOR_KEYBOARD => {
            actions.push(Action::ReadKeyboard);
            actions.push(Action::SendEoi);
        },
        VECTOR_GENERAL_PROTECTION => {
            actions.push(Action::Log(Report::GeneralProtection { error_code, rip }));
            push_fatal(state, &frame, 0, &mut actions);
        },
        VECTOR_PAGE_FAULT => {
            actions.push(Action::Log(Report::PageFault { address: cr2, error_code, rip }));
            push_fatal(state, &frame, cr2, &mut actions);
        },
        _ => {
            actions.push(Action::Log(Report::Other { vector, error_code, rip }));
            push_fatal(state, &frame, 0, &mut actions);
        },
    }
    assert(actions@ =~= old(state).answer(frame, cr2));
    actions
}

/// Whether an interrupt is one that whoever ran cannot carry on from: any
/// exception but a non-maskable interrupt, and a breakpoint only for a
/// process.
pub open spec fn is_fatal(frame: InterruptStackFrame) -> bool {
    let vector = frame.which();
    vector != VECTOR_NMI && vector != VECTOR_TIMER && vector != VECTOR_KEYBOARD && (vector
        != VECTOR_BREAKPOINT || from_ring_3(frame.cs))
}

/// A fault belongs to whoever caused it. Once the kernel takes faults, one
/// from ring 3 ends the process and never stops the machine; one from the
/// kernel always stops it and ends no process. Either is the last thing done.
pub proof fn a_fault_belongs_to_whoever_caused_it<T, U>(
    state: Interrupts<T, U>,
    frame: InterruptStackFrame,
    cr2: u64,
)
    requires
        is_fatal(frame),
    ensures
        ({
            let answer = state.answer(frame, cr2);
            let fault = UserFault {
                vector: frame.which(),
                name: name_of(frame.which()),
                error_code: frame.error_code,
                address: if frame.which() == VECTOR_PAGE_FAULT {
                    cr2
                } else {
                    0
                },
                rip: frame.rip,
            };
            &&& from_ring_3(frame.cs) && state.user_fault_handler is Some ==> answer.last()
                == Action::<T, U>::EndProcess(state.user_fault_handler->Some_0, fault)
                && !answer.contains(Action::Halt)
            &&& !from_ring_3(frame.cs) || state.user_fault_handler is None ==> answer.last()
                == Action::<T, U>::Halt && forall|i: int|
                0 <= i < answer.len() ==> !((#[trigger] answer[i]) is EndProcess)
        }),
{
}

/// An interrupt that is no fault neither stops the machine nor ends a
/// process.
pub proof fn the_machine_carries_on_from_anything_else<T, U>(
    state: Interrupts<T, U>,
    frame: InterruptStackFrame,
    cr2: u64,
    i: int,
)
    requires
        !is_fatal(frame),
        0 <= i < state.answer(frame, cr2).len(),
    ensures
        !(state.answer(frame, cr2)[i] is Halt),
        !(state.answer(frame, cr2)[i] is EndProcess),
{
}

/// The interrupt controller is told exactly once of an interrupt that came
/// through it, and before the timer's handler runs, which may not come back.
/// It is not told of any other.
pub proof fn the_controller_is_told_once<T, U>(
    state: Interrupts<T, U>,
    frame: InterruptStackFrame,
    cr2: u64,
)
    ensures
        ({
            let answer = state.answer(frame, cr2);
            let vector = frame.which();
            &&& vector == VECTOR_TIMER ==> answer[0] is SendEoi && forall|i: int|
                0 < i < answer.len() ==> !((#[trigger] answer[i]) is SendEoi)
            &&& vector == VECTOR_KEYBOARD ==> answer =~= seq![
                Action::<T, U>::ReadKeyboard,
                Action::SendEoi,
            ]
            &&& vector != VECTOR_TIMER && vector != VECTOR_KEYBOARD ==> forall|i: int|
                0 <= i < answer.len() ==> !((#[trigger] answer[i]) is SendEoi)
        }),
{
}

/// What is said and done of each interrupt, by its number. Whatever the
/// number, the upper part of the frame's vector counts for nothing.
pub proof fn each_vector_has_its_answer<T, U>(
    state: Interrupts<T, U>,
    frame: InterruptStackFrame,
    cr2: u64,
)
    requires
        state.ticks < u64::MAX,
    ensures
        ({
            let answer = state.answer(frame, cr2);
            let vector = frame.vector as int % 256;
            let (rip, error_code) = (frame.rip, frame.error_code);
            let user = frame.cs as int % 4 == 3;
            let count = (state.ticks + 1) as u64;
            let told = count as int % 100 == 0;
            let first: Action<T, U> = answer[0];
            let fatal = !(vector == 2 || vector == 0x20 || vector == 0x21 || (vector == 3
                && !user));
            &&& vector == 0 ==> first == Action::<T, U>::Log(Report::DivideError { rip })
            &&& vector == 2 ==> answer.len() == 1 && first == Action::<T, U>::Log(Report::Nmi)
            &&& vector == 3 && user ==> first == Action::<T, U>::Log(
                Report::UserBreakpoint { rip },
            )
            &&& vector == 3 && !user ==> answer.len() == 1 && first == Action::<T, U>::Log(
                Report::KernelBreakpoint,
            )
            &&& vector == 13 ==> first == Action::<T, U>::Log(
                Report::GeneralProtection { error_code, rip },
            )
            &&& vector == 14 ==> first == Action::<T, U>::Log(
                Report::PageFault { address: cr2, error_code, rip },
            )
            &&& fatal && vector != 0 && vector != 3 && vector != 13 && vector != 14 ==> first
                == Action::<T, U>::Log(Report::Other { vector: vector as u8, error_code, rip })
            &&& vector == 0x20 ==> {
                &&& first == Action::<T, U>::SendEoi
                &&& told ==> answer[1] == Action::<T, U>::Log(Report::Ticks { count })
                &&& state.tick_handler matches Some(handler) ==> answer.last() == Action::<
                    T,
                    U,
                >::Tick(handler)
                &&& answer.len() == 1 + (if told {
                    1int
                } else {
                    0
                }) + (if state.tick_handler is Some {
                    1int
                } else {
                    0
                })
            }
            &&& vector == 0x21 ==> answer.len() == 2 && first == Action::<T, U>::ReadKeyboard
                && answer[1] == Action::<T, U>::SendEoi
            &&& fatal && user && state.user_fault_handler is None ==> answer.len() == 3 && answer[1]
                == Action::<T, U>::Log(Report::NoFaultHandler) && answer[2] == Action::<T, U>::Halt
            &&& fatal && !user ==> answer.len() == 2 && answer[1] == Action::<T, U>::Halt
            &&& fatal && user && state.user_fault_handler is Some ==> answer.len() == 2
                && answer[1] == Action::<T, U>::EndProcess(
                state.user_fault_handler->Some_0,
                UserFault {
                    vector: vector as u8,
                    name: name_of(vector as u8),
                    error_code,
                    address: if vector == 14 {
                        cr2
                    } else {
                        0
                    },
                    rip,
                },
            )
        }),
{
}

/// What the vectors are called, and which push an error code.
pub proof fn vectors_have_their_names(vector: u8)
    ensures
        name_of(0) == "#DE divide error",
        name_of(1) == "#DB debug",
        name_of(2) == "NMI",
        name_of(3) == "#BP breakpoint",
        name_of(4) == "#OF overflow",
        name_of(5) == "#BR bound range exceeded",
        name_of(6) == "#UD invalid opcode",
        name_of(7) == "#NM device not available",
        name_of(8) == "#DF double fault",
        name_of(10) == "#TS invalid TSS",
        name_of(11) == "#NP segment not present",
        name_of(12) == "#SS stack-segment fault",
        name_of(13) == "#GP general protection",
        name_of(14) == "#PF page fault",
        name_of(16) == "#MF x87 floating-point",
        name_of(17) == "#AC alignment check",
        name_of(18) == "#MC machine check",
        name_of(19) == "#XM SIMD floating-point",
        name_of(20) == "#VE virtualisation",
        name_of(21) == "#CP control protection",
        name_of(28) == "#HV hypervisor injection",
        name_of(29) == "#VC VMM communication",
        name_of(30) == "#SX security",
        vector == 9 || vector == 15 || 22 <= vector <= 27 || vector > 30 ==> name_of(vector)
            == "reserved exception",
        has_error_code(vector) <==> vector == 8 || vector == 10 || vector == 11 || vector == 12
            || vector == 13 || vector == 14 || vector == 17 || vector == 21 || vector == 29
            || vector == 30,
{
}

/// What the lines of the log read.
pub proof fn reports_say_what_happened(a: u64, b: u64, c: u64, vector: u8)
    ensures
        ({
            let hex = |value: u64| prefixed_hex(value as nat);
            &&& (Report::DivideError { rip: a }).text() == "HARLAN: #DE divide error at rip="@
                + hex(a)
            &&& (Report::UserBreakpoint { rip: a }).text()
                == "HARLAN: #BP breakpoint from ring 3 at rip="@ + hex(a)
            &&& (Report::Ticks { count: a }).text() == "HARLAN: ticks="@ + decimal_digits(a as nat)
            &&& (Report::GeneralProtection { error_code: a, rip: b }).text()
                == "HARLAN: #GP error_code="@ + hex(a) + " at rip="@ + hex(b)
            &&& (Report::PageFault { address: a, error_code: b, rip: c }).text()
                == "HARLAN: #PF accessing "@ + hex(a) + ", error_code="@ + hex(b) + ", rip="@ + hex(
                c,
            )
            &&& (Report::Other { vector, error_code: a, rip: b }).text() == "HARLAN: "@ + name_of(
                vector,
            )@ + " (vector="@ + decimal_digits(vector as nat) + ") error_code="@ + hex(a)
                + " at rip="@ + hex(b)
            &&& (Report::DoubleFault { stack: a }).text()
                == "HARLAN: #DF DOUBLE FAULT on the stack at "@ + hex(a) + " - halting"@
            &&& Report::Nmi.text() == "HARLAN: NMI received (non-fatal)"@
            &&& Report::KernelBreakpoint.text() == "HARLAN: breakpoint handler OK"@
            &&& Report::NoFaultHandler.text()
                == "HARLAN: a process faulted before the kernel could take faults"@
        }),
{
}

/// What is done about a double fault, on the stack at `stack`: no attempt is
/// made to resume, because something has already gone badly wrong.
pub fn double_fault_handler<T, U>(stack: u64) -> (r: [Action<T, U>; 2])
    ensures
        r@ =~= seq![Action::Log(Report::DoubleFault { stack }), Action::Halt],
{
    [Action::Log(Report::DoubleFault { stack }), Action::Halt]
}

/// Where the stubs that the gates lead to are.
pub struct Stubs {
    pub divide_error: u64,
    pub nmi: u64,
    pub breakpoint: u64,
    pub double_fault: u64,
    pub general_protection: u64,
    pub page_fault: u64,
    pub timer: u64,
    pub keyboard: u64,
    /// Shared by every vector that nothing is expected on.
    pub spurious: u64,
    /// One for each entry of `other_exception_gates`, in its order.
    pub others: [u64; 26],
}

impl Stubs {
    /// The stub that a vector leads to.
    pub open spec fn of(self, vector: u8) -> u64 {
        if vector == VECTOR_DIVIDE_ERROR {
            self.divide_error
        } else if vector == VECTOR_NMI {
            self.nmi
        } else if vector == VECTOR_BREAKPOINT {
            self.breakpoint
        } else if vector == VECTOR_DOUBLE_FAULT {
            self.double_fault
        } else if vector == VECTOR_GENERAL_PROTECTION {
            self.general_protection
        } else if vector == VECTOR_PAGE_FAULT {
            self.page_fault
        } else if vector == VECTOR_TIMER {
            self.timer
        } else if vector == VECTOR_KEYBOARD {
            self.keyboard
        } else if vector < 32 {
            self.others@[other_exceptions().index_of(vector)]
        } else {
            self.spurious
        }
    }
}

/// Each vector leads to the stub that was written for it: the named ones to
/// theirs, the other exceptions to theirs in ascending order, and every vector
/// that nothing is expected on to the silent one.
pub proof fn each_vector_leads_to_its_stub(stubs: Stubs, vector: u8, j: int)
    requires
        0 <= j < 26,
    ensures
        stubs.of(0) == stubs.divide_error,
        stubs.of(2) == stubs.nmi,
        stubs.of(3) == stubs.breakpoint,
        stubs.of(8) == stubs.double_fault,
        stubs.of(13) == stubs.general_protection,
        stubs.of(14) == stubs.page_fault,
        stubs.of(0x20) == stubs.timer,
        stubs.of(0x21) == stubs.keyboard,
        vector > 0x21 ==> stubs.of(vector) == stubs.spurious,
        ({
            let others = seq![
                1u8, 4, 5, 6, 7, 9, 10, 11, 12, 15, 16, 17, 18, 19, 20, 21, 22, 23, 24, 25, 26, 27, 28,
                29, 30, 31,
            ];
            stubs.of(others[j]) == stubs.others@[j]
        }),
{
    every_exception_has_one_gate(0);
    let others = other_exceptions();
    let at = others.index_of(others[j]);
    assert(others.contains(others[j]));
    assert(others[at] == others[j]);
}

/// Whether a table has a descriptor that this kernel wants for a vector: to the
/// vector's stub, on the current stack but for the double fault, which has
/// one of its own.
pub open spec fn has_gate(idt: Idt, stubs: Stubs, vector: u8) -> bool {
    idt.0@[vector as int].gate(
        stubs.of(vector),
        KERNEL_CODE_SELECTOR,
        if vector == VECTOR_DOUBLE_FAULT {
            DOUBLE_FAULT_IST_INDEX
        } else {
            0
        },
        GATE_TYPE_INTERRUPT,
    )
}

fn gate_to(stub: u64) -> (r: IdtEntry)
    ensures
        r.gate(stub, KERNEL_CODE_SELECTOR, 0, GATE_TYPE_INTERRUPT),
{
    IdtEntry::new(stub, KERNEL_CODE_SELECTOR, 0, GATE_TYPE_INTERRUPT)
}

/// Fills every vector this kernel answers: all of them.
pub fn install_gates(idt: &mut Idt, stubs: &Stubs)
    ensures
        forall|vector: u8| #[trigger] has_gate(*final(idt), *stubs, vector),
        forall|vector: u8| (#[trigger] final(idt).0@[vector as int]).is_present(),
        forall|vector: u8|
            {
                let entry = #[trigger] final(idt).0@[vector as int];
                &&& entry.handler() == stubs.of(vector)
                &&& entry.selector == 8
                &&& entry.type_attr == 0x8E
                &&& entry.ist == if vector == 8 {
                    1int
                } else {
                    0
                }
            },
{
    // The catch-all first, so every slot has a valid, present gate before
    // anything else can possibly fire.
    let mut vector: usize = 32;
    while vector < 256
        invariant
            32 <= vector <= 256,
            forall|v: int|
                32 <= v < vector ==> (#[trigger] idt.0@[v]).gate(
                    stubs.spurious,
                    KERNEL_CODE_SELECTOR,
                    0,
                    GATE_TYPE_INTERRUPT,
                ),
        decreases 256 - vector,
    {
        idt.0[vector] = gate_to(stubs.spurious);
        vector += 1;
    }
    idt.0[VECTOR_DIVIDE_ERROR as usize] = gate_to(stubs.divide_error);
    idt.0[VECTOR_NMI as usize] = gate_to(stubs.nmi);
    idt.0[VECTOR_BREAKPOINT as usize] = gate_to(stubs.breakpoint);
    idt.0[VECTOR_GENERAL_PROTECTION as usize] = gate_to(stubs.general_protection);
    idt.0[VECTOR_PAGE_FAULT as usize] = gate_to(stubs.page_fault);
    idt.0[VECTOR_DOUBLE_FAULT as usize] = IdtEntry::new(
        stubs.double_fault,
        KERNEL_CODE_SELECTOR,
        DOUBLE_FAULT_IST_INDEX,
        GATE_TYPE_INTERRUPT,
    );
    // Everything else the processor can raise, so that a process cannot
    // reach a vector with no gate.
    let others = other_exception_gates();
    let ghost named = idt.0@;
    let mut index: usize = 0;
    while index < 26
        invariant
            index <= 26,
            forall|i: int| 0 <= i < 26 ==> (#[trigger] others@[i]).0 == other_exceptions()[i],
            named.len() == 256,
            forall|v: int|
                #![trigger idt.0@[v]]
                0 <= v < 256 && !(exists|j: int| 0 <= j < index && other_exceptions()[j] == v)
                    ==> idt.0@[v] == named[v],
            forall|j: int|
                0 <= j < index ==> idt.0@[#[trigger] other_exceptions()[j] as int].gate(
                    stubs.others@[j],
                    KERNEL_CODE_SELECTOR,
                    0,
                    GATE_TYPE_INTERRUPT,
                ),
        decreases 26 - index,
    {
        let (vector, _) = others[index];
        let ghost before = idt.0@;
        proof {
            every_exception_has_one_gate(0);
            assert(vector == other_exceptions()[index as int]);
        }
        idt.0[vector as usize] = gate_to(stubs.others[index]);
        index += 1;
        proof {
            assert forall|j: int| 0 <= j < index implies idt.0@[#[trigger] other_exceptions()[j] as int].gate(
                stubs.others@[j],
                KERNEL_CODE_SELECTOR,
                0,
                GATE_TYPE_INTERRUPT,
            ) by {
                if j < index - 1 {
                    assert(other_exceptions()[j] != vector);
                }
            }
            assert forall|v: int|
                #![trigger idt.0@[v]]
                0 <= v < 256 && !(exists|j: int| 0 <= j < index && other_exceptions()[j] == v) implies idt.0@[v]
                == named[v] by {
                assert(v != vector) by {
                    assert(other_exceptions()[index - 1] == vector);
                }
                assert(idt.0@[v] == before[v]);
                assert(!(exists|j: int| 0 <= j < index - 1 && other_exceptions()[j] == v));
            }
        }
    }
    idt.0[VECTOR_TIMER as usize] = gate_to(stubs.timer);
    idt.0[VECTOR_KEYBOARD as usize] = gate_to(stubs.keyboard);
    proof {
        assert forall|vector: u8| #[trigger] has_gate(*idt, *stubs, vector) by {
            if vector < 32 {
                every_exception_has_one_gate(vector);
                if !is_named(vector) {
                    let j = other_exceptions().index_of(vector);
                    assert(other_exceptions()[j] == vector);
                } else {
                    assert forall|j: int| 0 <= j < 26 implies other_exceptions()[j] != vector by {
                        if other_exceptions()[j] == vector {
                            assert(other_exceptions().contains(vector));
                        }
                    }
                }
            } else {
                assert forall|j: int| 0 <= j < 26 implies other_exceptions()[j] < 32 by {}
            }
        }
        assert forall|vector: u8| (#[trigger] idt.0@[vector as int]).is_present() by {
            assert(has_gate(*idt, *stubs, vector));
        }
        assert forall|vector: u8|
            {
                let entry = #[trigger] idt.0@[vector as int];
                &&& entry.handler() == stubs.of(vector)
                &&& entry.selector == 8
                &&& entry.type_attr == 0x8E
                &&& entry.ist == if vector == 8 {
                    1int
                } else {
                    0
                }
            } by {
            assert(has_gate(*idt, *stubs, vector));
        }
    }
}

/// The timer's line at the interrupt controller.
pub const TIMER_LINE: u8 = 0;

/// The keyboard's line at the interrupt controller.
pub const KEYBOARD_LINE: u8 = 1;

/// How often the timer is to fire, per second.
pub const TIMER_HZ: u32 = 100;

/// Which line to unmask once the keyboard's controller has been set up. If
/// the controller did not respond, none: the kernel keeps running (just
/// without input) instead of hanging on it.
pub fn init_keyboard(controller: Result<(), InitError>) -> (r: Result<u8, InitError>)
    ensures
        r == match controller {
            Ok(()) => Ok::<u8, InitError>(KEYBOARD_LINE),
            Err(error) => Err(error),
        },
        r matches Ok(line) ==> line == 1,
{
    match controller {
        Ok(()) => Ok(KEYBOARD_LINE),
        Err(error) => Err(error),
    }
}

} // verus!
