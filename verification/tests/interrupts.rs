use harlan::arch::gdt;
use harlan::arch::interrupts::{
    came_from_ring_3, exception_name, other_exception_gates, pushes_error_code,
    VECTOR_BREAKPOINT, VECTOR_DIVIDE_ERROR, VECTOR_DOUBLE_FAULT, VECTOR_GENERAL_PROTECTION,
    VECTOR_KEYBOARD, VECTOR_NMI, VECTOR_PAGE_FAULT, VECTOR_TIMER,
};

/// How the kernel tells a process's fault from its own. Pinned against
/// the selectors the GDT actually uses, so that moving a descriptor
/// cannot quietly change the answer.
#[test]
fn a_fault_is_the_process_s_only_when_the_cpu_was_in_ring_3() {
    assert!(came_from_ring_3(u64::from(gdt::USER_CODE_SELECTOR)));
    assert!(!came_from_ring_3(u64::from(gdt::KERNEL_CODE_SELECTOR)));
    // Not the descriptor: the privilege bits. The user code descriptor
    // read with an RPL of zero is not ring 3, and never appears.
    assert!(!came_from_ring_3(u64::from(gdt::USER_CODE_SELECTOR & !3)));
    assert!(!came_from_ring_3(0));
    // Ring 1 and 2 exist and nothing in this kernel runs in them.
    assert!(!came_from_ring_3(
        u64::from(gdt::USER_CODE_SELECTOR & !3) | 1
    ));
    assert!(!came_from_ring_3(
        u64::from(gdt::USER_CODE_SELECTOR & !3) | 2
    ));
}

/// A vector with no gate is a vector a process can reach, and what it
/// gets instead is a `#GP` naming a segment selector that has nothing
/// to do with what happened. Every exception the CPU defines has to
/// have one.
#[test]
fn every_exception_vector_has_a_gate() {
    let named = [
        VECTOR_DIVIDE_ERROR,
        VECTOR_NMI,
        VECTOR_BREAKPOINT,
        VECTOR_DOUBLE_FAULT,
        VECTOR_GENERAL_PROTECTION,
        VECTOR_PAGE_FAULT,
    ];
    let mut covered = [false; 32];
    for vector in named {
        assert!(!covered[vector as usize], "vector {vector} twice");
        covered[vector as usize] = true;
    }
    for (vector, _) in &other_exception_gates() {
        assert!(*vector < 32, "vector {vector} is not an exception");
        assert!(!covered[*vector as usize], "vector {vector} twice");
        covered[*vector as usize] = true;
    }
    for (vector, has_gate) in covered.iter().enumerate() {
        assert!(has_gate, "vector {vector} has no gate");
    }
}

/// The other half of that: a stub has to know whether the CPU pushed
/// an error code, because everything above it in the frame moves by
/// eight bytes if it is wrong.
#[test]
fn the_stubs_agree_with_the_manual_about_error_codes() {
    for (vector, with_error_code) in &other_exception_gates() {
        assert_eq!(
            *with_error_code,
            pushes_error_code(*vector),
            "vector {vector}"
        );
    }
    // And the named ones, which are wired by hand above.
    assert!(!pushes_error_code(VECTOR_DIVIDE_ERROR));
    assert!(!pushes_error_code(VECTOR_NMI));
    assert!(!pushes_error_code(VECTOR_BREAKPOINT));
    assert!(pushes_error_code(VECTOR_DOUBLE_FAULT));
    assert!(pushes_error_code(VECTOR_GENERAL_PROTECTION));
    assert!(pushes_error_code(VECTOR_PAGE_FAULT));
    // Nothing outside the exception range does.
    assert!(!pushes_error_code(VECTOR_TIMER));
    assert!(!pushes_error_code(VECTOR_KEYBOARD));
}

/// The log has to name what happened. A vector with no name would
/// still be handled, but the line it prints would not say what it was.
#[test]
fn every_exception_the_cpu_defines_has_a_name() {
    for vector in 0..32u8 {
        let name = exception_name(vector);
        let reserved = matches!(vector, 9 | 15 | 22..=27 | 31);
        assert_eq!(
            name == "reserved exception",
            reserved,
            "vector {vector} is named {name}"
        );
    }
    assert_eq!(exception_name(6), "#UD invalid opcode");
    assert_eq!(exception_name(14), "#PF page fault");
}
