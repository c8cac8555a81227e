use harlan::hal::addr::{PhysAddr, VirtAddr};

#[test]
fn addresses_carry_their_number_and_print_it_in_hex() {
    let phys = PhysAddr::new(0x1234);
    assert_eq!(phys.as_u64(), 0x1234);
    assert_eq!(phys.to_display(), "0x1234");
    assert_eq!(phys.to_debug(), "PhysAddr(0x1234)");
    assert_eq!(phys.to_display(), "0x1234");
    assert_eq!(phys.to_lower_hex(), "1234");
}

#[test]
fn alignment_is_checked_and_rounded_down() {
    assert!(PhysAddr::new(0x2000).is_aligned_to(0x1000));
    assert!(!PhysAddr::new(0x2001).is_aligned_to(0x1000));
    assert_eq!(
        VirtAddr::new(0x2FFF).align_down(0x1000),
        VirtAddr::new(0x2000)
    );
}

#[test]
fn arithmetic_refuses_to_wrap_around() {
    assert_eq!(PhysAddr::new(0x1000) + 0x1000, PhysAddr::new(0x2000));
    assert_eq!(PhysAddr::new(u64::MAX).checked_add(1), None);
    assert_eq!(
        VirtAddr::new(0x3000).saturating_sub(VirtAddr::new(0x1000)),
        0x2000
    );
    assert_eq!(
        VirtAddr::new(0x1000).saturating_sub(VirtAddr::new(0x3000)),
        0
    );
}

