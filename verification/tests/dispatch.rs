use harlan::arch::gdt::{
    DOUBLE_FAULT_IST_INDEX, KERNEL_CODE_SELECTOR, USER_CODE_SELECTOR,
};
use harlan::arch::idt::{Idt, IdtEntry, GATE_TYPE_INTERRUPT};
use harlan::arch::interrupts::{
    init_keyboard, install_gates, other_exception_gates, rust_interrupt_handler,
    set_tick_handler, set_user_fault_handler, ticks, Action, InterruptStackFrame, Interrupts,
    Report, Severity, Stubs, UserFault, KEYBOARD_LINE,
};
use harlan::arch::keyboard::InitError;
use harlan::hal::timer::TickCounter;

type State = Interrupts<u32, u64>;

fn frame(vector: u64, cs: u16) -> InterruptStackFrame {
    InterruptStackFrame {
        vector,
        error_code: 0x15,
        rip: 0xABC0,
        cs: u64::from(cs),
    }
}

#[test]
fn a_fault_of_a_process_ends_the_process_and_not_the_machine() {
    let mut state: State = Interrupts::new();
    set_user_fault_handler(&mut state, 77);
    let actions = rust_interrupt_handler(&mut state, frame(14, USER_CODE_SELECTOR), 0x1234);
    assert_eq!(
        actions,
        [
            Action::Log(Report::PageFault {
                address: 0x1234,
                error_code: 0x15,
                rip: 0xABC0
            }),
            Action::EndProcess(
                77,
                UserFault {
                    vector: 14,
                    name: "#PF page fault",
                    error_code: 0x15,
                    address: 0x1234,
                    rip: 0xABC0
                }
            ),
        ]
    );
    // Only a page fault has an address.
    let actions = rust_interrupt_handler(&mut state, frame(13, USER_CODE_SELECTOR), 0x1234);
    assert_eq!(
        actions[1],
        Action::EndProcess(
            77,
            UserFault {
                vector: 13,
                name: "#GP general protection",
                error_code: 0x15,
                address: 0,
                rip: 0xABC0
            }
        )
    );
}

#[test]
fn a_fault_of_the_kernel_stops_the_machine() {
    let mut state: State = Interrupts::new();
    set_user_fault_handler(&mut state, 77);
    for vector in [0, 6, 13, 14, 255] {
        let actions = rust_interrupt_handler(&mut state, frame(vector, KERNEL_CODE_SELECTOR), 0);
        assert_eq!(actions.len(), 2, "vector {vector}");
        assert_eq!(actions[1], Action::Halt, "vector {vector}");
    }
}

#[test]
fn a_process_that_faults_before_anyone_listens_stops_the_machine() {
    let mut state: State = Interrupts::new();
    let actions = rust_interrupt_handler(&mut state, frame(6, USER_CODE_SELECTOR), 0);
    assert_eq!(
        actions,
        [
            Action::Log(Report::Other {
                vector: 6,
                error_code: 0x15,
                rip: 0xABC0
            }),
            Action::Log(Report::NoFaultHandler),
            Action::Halt,
        ]
    );
}

#[test]
fn a_breakpoint_is_the_end_only_for_a_process() {
    let mut state: State = Interrupts::new();
    set_user_fault_handler(&mut state, 77);
    assert_eq!(
        rust_interrupt_handler(&mut state, frame(3, KERNEL_CODE_SELECTOR), 0),
        [Action::Log(Report::KernelBreakpoint)]
    );
    let actions = rust_interrupt_handler(&mut state, frame(3, USER_CODE_SELECTOR), 0);
    assert_eq!(actions[0], Action::Log(Report::UserBreakpoint { rip: 0xABC0 }));
    assert!(matches!(actions[1], Action::EndProcess(77, _)));
    assert_eq!(
        rust_interrupt_handler(&mut state, frame(2, USER_CODE_SELECTOR), 0),
        [Action::Log(Report::Nmi)],
        "an NMI is never the end"
    );
}

#[test]
fn a_tick_is_counted_acknowledged_and_then_handed_on() {
    let mut state: State = Interrupts::new();
    assert_eq!(
        rust_interrupt_handler(&mut state, frame(0x20, KERNEL_CODE_SELECTOR), 0),
        [Action::SendEoi]
    );
    set_tick_handler(&mut state, 5);
    for _ in 2..100 {
        assert_eq!(
            rust_interrupt_handler(&mut state, frame(0x20, USER_CODE_SELECTOR), 0),
            [Action::SendEoi, Action::Tick(5)]
        );
    }
    assert_eq!(
        rust_interrupt_handler(&mut state, frame(0x20, KERNEL_CODE_SELECTOR), 0),
        [
            Action::SendEoi,
            Action::Log(Report::Ticks { count: 100 }),
            Action::Tick(5),
        ]
    );
    assert_eq!(ticks(&state), 100);
    assert_eq!(TickCounter::ticks(&state), 100);
}

#[test]
fn the_keyboard_is_read_before_its_interrupt_is_acknowledged() {
    let mut state: State = Interrupts::new();
    assert_eq!(
        rust_interrupt_handler(&mut state, frame(0x21, USER_CODE_SELECTOR), 0),
        [Action::ReadKeyboard, Action::SendEoi]
    );
    // Only the low byte of what the stub pushed is the vector.
    assert_eq!(
        rust_interrupt_handler(&mut state, frame(0x1_0021, USER_CODE_SELECTOR), 0),
        [Action::ReadKeyboard, Action::SendEoi]
    );
    assert_eq!(ticks(&state), 0);
}

#[test]
fn reports_read_the_way_they_always_have() {
    let (error_code, rip) = (0x2, 0xFFFF_8000_0000_1234);
    for (report, severity, text) in [
        (
            Report::DivideError { rip },
            Severity::Error,
            "HARLAN: #DE divide error at rip=0xffff800000001234",
        ),
        (
            Report::Nmi,
            Severity::Warn,
            "HARLAN: NMI received (non-fatal)",
        ),
        (
            Report::UserBreakpoint { rip },
            Severity::Error,
            "HARLAN: #BP breakpoint from ring 3 at rip=0xffff800000001234",
        ),
        (
            Report::KernelBreakpoint,
            Severity::Info,
            "HARLAN: breakpoint handler OK",
        ),
        (
            Report::Ticks { count: 1200 },
            Severity::Info,
            "HARLAN: ticks=1200",
        ),
        (
            Report::GeneralProtection { error_code, rip },
            Severity::Error,
            "HARLAN: #GP error_code=0x2 at rip=0xffff800000001234",
        ),
        (
            Report::PageFault {
                address: 0,
                error_code,
                rip,
            },
            Severity::Error,
            "HARLAN: #PF accessing 0x0, error_code=0x2, rip=0xffff800000001234",
        ),
        (
            Report::Other {
                vector: 17,
                error_code,
                rip,
            },
            Severity::Error,
            "HARLAN: #AC alignment check (vector=17) error_code=0x2 at rip=0xffff800000001234",
        ),
        (
            Report::NoFaultHandler,
            Severity::Error,
            "HARLAN: a process faulted before the kernel could take faults",
        ),
        (
            Report::DoubleFault { stack: 0x5000 },
            Severity::Error,
            "HARLAN: #DF DOUBLE FAULT on the stack at 0x5000 - halting",
        ),
    ] {
        assert_eq!(report.message(), text);
        assert_eq!(report.severity(), severity);
    }
}

#[test]
fn every_vector_leads_to_its_stub() {
    let mut others = [0; 26];
    for (n, stub) in others.iter_mut().enumerate() {
        *stub = 0x2000 + n as u64;
    }
    let stubs = Stubs {
        divide_error: 0x1000,
        nmi: 0x1002,
        breakpoint: 0x1003,
        double_fault: 0x1008,
        general_protection: 0x100D,
        page_fault: 0x100E,
        timer: 0x1020,
        keyboard: 0x1021,
        spurious: 0x1FFF,
        others,
    };
    let mut idt = Idt::new();
    install_gates(&mut idt, &stubs);
    let gate = |stub: u64, ist: u8| {
        IdtEntry::new(stub, KERNEL_CODE_SELECTOR, ist, GATE_TYPE_INTERRUPT)
    };
    for vector in [0u64, 2, 3, 13, 14, 0x20, 0x21] {
        assert_eq!(idt.0[vector as usize], gate(0x1000 + vector, 0));
    }
    assert_eq!(idt.0[8], gate(0x1008, DOUBLE_FAULT_IST_INDEX));
    for (n, (vector, _)) in other_exception_gates().iter().enumerate() {
        assert_eq!(idt.0[*vector as usize], gate(0x2000 + n as u64, 0));
    }
    for vector in (32..256).filter(|vector| *vector != 0x20 && *vector != 0x21) {
        assert_eq!(idt.0[vector], gate(0x1FFF, 0));
    }
}

#[test]
fn the_keyboards_line_stays_masked_without_a_controller() {
    assert_eq!(init_keyboard(Ok(())), Ok(KEYBOARD_LINE));
    assert_eq!(
        init_keyboard(Err(InitError::ControllerTimeout)),
        Err(InitError::ControllerTimeout)
    );
}

#[test]
fn a_new_table_holds_nothing_but_the_missing_entry() {
    assert!(Idt::new().0.iter().all(|entry| entry.words() == (0, 0)));
    assert_eq!(IdtEntry::missing().words(), (0, 0));
}
