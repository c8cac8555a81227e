use harlan::hal::addr::VirtAddr;
use harlan::hal::paging::Page;

fn virt(addr: u64) -> VirtAddr {
    VirtAddr::new(addr)
}

#[test]
fn paging_from_start_address_accepts_only_aligned_addresses() {
    assert_eq!(
        Page::from_start_address(virt(0xFFFF_8000_0000_0000)).map(Page::start_address),
        Some(virt(0xFFFF_8000_0000_0000))
    );
    assert_eq!(Page::from_start_address(virt(0xFFFF_8000_0000_0008)), None);
}

#[test]
fn containing_address_rounds_down_to_the_page_start() {
    assert_eq!(
        Page::containing_address(virt(0x7FFF)).start_address(),
        virt(0x7000)
    );
    assert_eq!(
        Page::containing_address(virt(u64::MAX)).start_address(),
        virt(u64::MAX - 0xFFF)
    );
}
