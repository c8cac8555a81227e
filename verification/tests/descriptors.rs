use harlan::arch::cpu::interrupts_enabled;
use harlan::arch::gdt::{
    Gdt, TaskStateSegment, GDT_LIMIT, KERNEL_CODE_SELECTOR, SYSRET_SELECTOR_BASE, TSS_SELECTOR,
    TSS_SIZE, USER_CODE_SELECTOR, USER_DATA_SELECTOR,
};
use harlan::arch::idt::{IdtEntry, GATE_TYPE_INTERRUPT, IDT_LIMIT};
use harlan::arch::msr::{
    MsrWrite, IA32_EFER, IA32_FMASK, IA32_KERNEL_GS_BASE, IA32_LSTAR, IA32_STAR,
};
use harlan::arch::pic::mask_all;
use harlan::arch::pit;
use harlan::arch::port::PortWrite;
use harlan::arch::syscall::{dispatch, init, set_handler, HandlerSlot, SyscallFrame, FMASK};

#[test]
fn the_descriptor_table_is_where_its_selectors_say() {
    let gdt = Gdt::new(0x1122_3344_5566_7788);
    let words = gdt.words();
    assert_eq!(words[0], 0);
    assert_eq!(words[KERNEL_CODE_SELECTOR as usize / 8], 0x00AF_9A00_0000_FFFF);
    assert_eq!(words[2], 0x00CF_9200_0000_FFFF);
    assert_eq!(words[TSS_SELECTOR as usize / 8], 0x5500_8966_7788_0067);
    assert_eq!(words[TSS_SELECTOR as usize / 8 + 1], 0x1122_3344);
    assert_eq!(GDT_LIMIT as usize + 1, words.len() * 8);
}

#[test]
fn the_double_fault_stack_is_the_first_of_its_table() {
    let tss = TaskStateSegment::new(0x1_2345_6000);
    let dwords = tss.dwords();
    assert_eq!(dwords.len() as u64 * 4, TSS_SIZE);
    // IST1 is at byte 36, the I/O map base is the last word.
    assert_eq!((dwords[9], dwords[10]), (0x2345_6000, 1));
    assert_eq!(dwords[25], 104 << 16);
    for (n, dword) in dwords.iter().enumerate() {
        if ![9, 10, 25].contains(&n) {
            assert_eq!(*dword, 0, "dword {n}");
        }
    }
}

#[test]
fn a_descriptor_is_sixteen_bytes_in_the_processors_order() {
    let entry = IdtEntry::new(0x1122_3344_5566_7788, 0x08, 1, GATE_TYPE_INTERRUPT);
    assert_eq!(entry.words(), (0x5566_8E01_0008_7788, 0x1122_3344));
    assert_eq!(IdtEntry::missing().words(), (0, 0));
    assert_eq!(IDT_LIMIT as usize + 1, 256 * 16);
}

#[test]
fn masking_writes_both_controllers() {
    assert_eq!(
        mask_all(),
        [
            PortWrite {
                port: 0x21,
                value: 0xFF
            },
            PortWrite {
                port: 0xA1,
                value: 0xFF
            },
        ]
    );
}

#[test]
fn the_timer_is_given_its_divisor_low_byte_first() {
    let write = |port, value| PortWrite { port, value };
    // 11931 = 0x2E9B.
    assert_eq!(
        pit::init(100),
        [write(0x43, 0x36), write(0x40, 0x9B), write(0x40, 0x2E)]
    );
    // The slowest whole frequency that the chip can do, and what is left of
    // divisors out of its reach.
    assert_eq!(
        pit::init(19),
        [write(0x43, 0x36), write(0x40, 0x4F), write(0x40, 0xF5)]
    );
    assert_eq!(
        pit::init(18),
        [write(0x43, 0x36), write(0x40, 0xEF), write(0x40, 0x02)]
    );
    // 13534 = 0x34DE.
    assert_eq!(
        pit::init(1),
        [write(0x43, 0x36), write(0x40, 0xDE), write(0x40, 0x34)]
    );
    assert_eq!(
        pit::init(1_193_182),
        [write(0x43, 0x36), write(0x40, 0x01), write(0x40, 0x00)]
    );
    assert_eq!(
        pit::init(1_193_183),
        [write(0x43, 0x36), write(0x40, 0x00), write(0x40, 0x00)]
    );
}

#[test]
fn interrupts_are_bit_nine_of_the_flags() {
    assert!(interrupts_enabled(0x202));
    assert!(!interrupts_enabled(!0x200));
}

fn frame() -> SyscallFrame {
    SyscallFrame {
        rax: 1,
        rdi: 2,
        rsi: 3,
        rdx: 4,
        r10: 5,
        r8: 6,
        r9: 7,
        user_rip: 8,
        user_rflags: 9,
    }
}

#[test]
fn a_syscall_that_nobody_takes_fails() {
    let slot: HandlerSlot<fn(SyscallFrame) -> SyscallFrame> = HandlerSlot::new();
    let mut given = frame();
    dispatch(&slot, &mut given);
    assert_eq!(
        given,
        SyscallFrame {
            rax: u64::MAX,
            ..frame()
        }
    );
}

#[test]
fn a_syscall_goes_to_whoever_was_set_last() {
    let mut slot: HandlerSlot<fn(SyscallFrame) -> SyscallFrame> = HandlerSlot::new();
    set_handler(&mut slot, |frame| SyscallFrame { rax: 100, ..frame });
    set_handler(&mut slot, |frame| SyscallFrame {
        rax: frame.rdi + frame.rsi,
        ..frame
    });
    let mut given = frame();
    dispatch(&slot, &mut given);
    assert_eq!(given, SyscallFrame { rax: 5, ..frame() });
}

#[test]
fn turning_syscalls_on_programs_five_registers() {
    let (local, writes) = init(0x8000, 0x1234_5678, 0x9000, 0x500);
    assert_eq!(local.words(), [0x8000, 0]);
    let write = |msr, value| MsrWrite { msr, value };
    assert_eq!(
        writes,
        [
            write(IA32_STAR, 0x0020_0008_0000_0000),
            write(IA32_LSTAR, 0x1234_5678),
            write(IA32_FMASK, FMASK),
            write(IA32_KERNEL_GS_BASE, 0x9000),
            write(IA32_EFER, 0x501),
        ]
    );
    // What `sysretq` makes of the first.
    assert_eq!(SYSRET_SELECTOR_BASE + 8, USER_DATA_SELECTOR & !3);
    assert_eq!(SYSRET_SELECTOR_BASE + 16, USER_CODE_SELECTOR & !3);
}
