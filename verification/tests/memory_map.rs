use harlan::hal::addr::PhysAddr;
use harlan::hal::memory_map::{
    classify_memory_type, MemoryMap, MemoryRegion, MemoryRegionKind, BOOT_SERVICES_CODE,
    BOOT_SERVICES_DATA, CONVENTIONAL, RUNTIME_SERVICES_CODE,
};

#[test]
fn conventional_memory_is_usable() {
    assert_eq!(
        classify_memory_type(CONVENTIONAL),
        MemoryRegionKind::Usable
    );
}

#[test]
fn boot_services_memory_is_its_own_kind_not_usable() {
    assert_eq!(
        classify_memory_type(BOOT_SERVICES_CODE),
        MemoryRegionKind::BootServices
    );
    assert_eq!(
        classify_memory_type(BOOT_SERVICES_DATA),
        MemoryRegionKind::BootServices
    );
}

#[test]
fn runtime_services_code_is_its_own_kind() {
    assert_eq!(
        classify_memory_type(RUNTIME_SERVICES_CODE),
        MemoryRegionKind::RuntimeCode
    );
    // Runtime services *data* is not executed: plain reserved memory.
    assert_eq!(classify_memory_type(6), MemoryRegionKind::Reserved);
}

#[test]
fn loader_and_reserved_memory_is_never_usable() {
    // LOADER_CODE=1, LOADER_DATA=2, RESERVED=0
    assert_eq!(classify_memory_type(0), MemoryRegionKind::Reserved);
    assert_eq!(classify_memory_type(1), MemoryRegionKind::Reserved);
    assert_eq!(classify_memory_type(2), MemoryRegionKind::Reserved);
}

#[test]
fn unknown_ordinal_is_reserved() {
    assert_eq!(classify_memory_type(9999), MemoryRegionKind::Reserved);
}

#[test]
fn push_reports_capacity_exhaustion_instead_of_panicking() {
    let mut map = MemoryMap::new();
    let region = MemoryRegion {
        start_phys_addr: PhysAddr::new(0),
        page_count: 1,
        kind: MemoryRegionKind::Usable,
    };
    for _ in 0..MemoryMap::CAPACITY {
        assert!(map.push(region));
    }
    assert!(!map.push(region), "push past capacity must return false");
    assert_eq!(map.len(), MemoryMap::CAPACITY);
}

#[test]
fn total_usable_pages_sums_only_usable_regions() {
    let mut map = MemoryMap::new();
    assert!(map.push(MemoryRegion {
        start_phys_addr: PhysAddr::new(0),
        page_count: 10,
        kind: MemoryRegionKind::Usable,
    }));
    assert!(map.push(MemoryRegion {
        start_phys_addr: PhysAddr::new(0x1000),
        page_count: 5,
        kind: MemoryRegionKind::Reserved,
    }));
    assert!(map.push(MemoryRegion {
        start_phys_addr: PhysAddr::new(0x2000),
        page_count: 20,
        kind: MemoryRegionKind::Usable,
    }));
    assert_eq!(map.total_usable_pages(), 30);
}

#[test]
fn total_pages_counts_each_kind_separately() {
    let mut map = MemoryMap::new();
    for (start, pages, kind) in [
        (0x0, 4, MemoryRegionKind::Usable),
        (0x4000, 7, MemoryRegionKind::BootServices),
        (0xB000, 2, MemoryRegionKind::Reserved),
        (0xD000, 3, MemoryRegionKind::BootServices),
    ] {
        assert!(map.push(MemoryRegion {
            start_phys_addr: PhysAddr::new(start),
            page_count: pages,
            kind,
        }));
    }
    assert_eq!(map.total_pages(MemoryRegionKind::Usable), 4);
    assert_eq!(map.total_pages(MemoryRegionKind::BootServices), 10);
    assert_eq!(map.total_pages(MemoryRegionKind::Reserved), 2);
}
