use harlan::hal::addr::PhysAddr;
use harlan::hal::frame::{PhysFrame, PhysRange, FRAME_SIZE};

fn phys(addr: u64) -> PhysAddr {
    PhysAddr::new(addr)
}

#[test]
fn a_range_knows_what_it_covers() {
    let range = PhysRange::new(phys(0x2000), 0x1000);
    assert_eq!(range.end(), phys(0x3000));
    assert!(range.contains(phys(0x2000)) && range.contains(phys(0x2FFF)));
    assert!(!range.contains(phys(0x1FFF)) && !range.contains(phys(0x3000)));
    assert!(
        range.overlaps(phys(0x1000), phys(0x2001))
            && range.overlaps(phys(0x2FFF), phys(0x9000))
    );
    assert!(
        !range.overlaps(phys(0x0), phys(0x2000)) && !range.overlaps(phys(0x3000), phys(0x9000))
    );
}

#[test]
fn a_range_that_would_wrap_around_saturates() {
    let range = PhysRange::new(phys(u64::MAX - 0xF), u64::MAX);
    assert_eq!(range.end(), phys(u64::MAX));
    assert!(range.contains(phys(u64::MAX - 1)));
}

#[test]
fn frame_from_start_address_accepts_only_aligned_addresses() {
    assert_eq!(
        PhysFrame::from_start_address(phys(0x5000)).map(PhysFrame::start_address),
        Some(phys(0x5000))
    );
    assert_eq!(PhysFrame::from_start_address(phys(0x5001)), None);
    assert_eq!(PhysFrame::from_start_address(phys(0x5FFF)), None);
}

#[test]
fn containing_address_rounds_down_to_the_frame_start() {
    assert_eq!(
        PhysFrame::containing_address(phys(0x5FFF)).start_address(),
        phys(0x5000)
    );
    assert_eq!(
        PhysFrame::containing_address(phys(0x5000)).start_address(),
        phys(0x5000)
    );
    assert_eq!(
        PhysFrame::containing_address(phys(0)).start_address(),
        phys(0)
    );
}

#[test]
fn containing_address_does_not_overflow_at_the_top_of_the_address_space() {
    let frame = PhysFrame::containing_address(phys(u64::MAX));
    assert_eq!(frame.start_address(), phys(u64::MAX - (FRAME_SIZE - 1)));
}

#[test]
fn number_counts_frames_from_zero() {
    assert_eq!(PhysFrame::containing_address(phys(0)).number(), 0);
    assert_eq!(PhysFrame::containing_address(phys(0x3000)).number(), 3);
}
