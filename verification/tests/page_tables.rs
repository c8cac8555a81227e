use harlan::arch::paging::model::{
    ADDRESS_MASK, GIB, HUGE, KERNEL_SPACE_BASE, PAGE, PRESENT, WRITABLE,
};
use harlan::arch::paging::simulated::SimulatedMemory;
use harlan::arch::paging::{
    KernelPageTable, PageTables, PagingError, PagingRegisters, TableAccess, CR3_FLAGS, CR4_LA57,
    CR4_PCIDE, EFER_NXE, KERNEL_PHYSMAP_START,
};
use harlan::hal::addr::{PhysAddr, VirtAddr};
use harlan::hal::frame::{FrameAllocator, FrameList, PhysFrame, PhysRange};
use harlan::hal::memory_map::CachePolicy;
use harlan::hal::paging::{
    MapError, MappedRange, Page, PageFlags, PageMapper, UnmapError,
};

const ROOT: u64 = 0x20_0000;
const PDPT: u64 = 0x20_1000;

fn frame(addr: u64) -> PhysFrame {
    PhysFrame::from_start_address(PhysAddr::new(addr)).unwrap()
}

fn frames(first: u64, count: u64) -> FrameList {
    FrameList::new((0..count).map(|n| frame(first + n * PAGE)).collect())
}

/// An identity map of the first four GiB in 1 GiB pages.
fn firmware() -> SimulatedMemory {
    let mut memory = SimulatedMemory::new();
    memory.write(ROOT, 0, PDPT | PRESENT | WRITABLE);
    for gib in 0..4 {
        memory.write(PDPT, gib, gib as u64 * GIB | PRESENT | WRITABLE | HUGE);
    }
    memory
}

fn registers() -> PagingRegisters {
    PagingRegisters {
        cr3: ROOT | CR3_FLAGS,
        cr4: 0,
        efer: EFER_NXE,
    }
}

fn taken_over(frames: &mut FrameList) -> KernelPageTable<SimulatedMemory> {
    KernelPageTable::take_over(firmware(), registers(), 0x7000, frames)
        .map(|(table, _)| table)
        .unwrap_or_else(|error| panic!("{error:?}"))
}

fn refusal(
    access: SimulatedMemory,
    registers: PagingRegisters,
    stack: u64,
    frames: &mut FrameList,
) -> PagingError {
    match KernelPageTable::take_over(access, registers, stack, frames) {
        Ok(_) => panic!("taken over"),
        Err(error) => error,
    }
}

fn page(addr: u64) -> Page {
    Page::from_start_address(VirtAddr::new(addr)).unwrap()
}

#[test]
fn taking_over_loads_the_copied_root_and_keeps_the_cache_bits() {
    let mut list = frames(0x100_0000, 1);
    let (table, cr3) = KernelPageTable::take_over(firmware(), registers(), 0x7000, &mut list)
        .unwrap_or_else(|error| panic!("{error:?}"));
    assert_eq!(table.root(), 0x100_0000);
    assert_eq!(cr3, 0x100_0000 | CR3_FLAGS);
    assert_eq!(list.left(), 0);
    for addr in [0, 0x1234, 3 * GIB + 5] {
        assert_eq!(
            table.translate(VirtAddr::new(addr)),
            Some(PhysAddr::new(addr))
        );
    }
    assert_eq!(table.translate(VirtAddr::new(4 * GIB)), None);
}

#[test]
fn a_paging_mode_the_walker_does_not_know_is_refused() {
    let mut list = frames(0x100_0000, 1);
    let five = PagingRegisters {
        cr4: CR4_LA57 | CR4_PCIDE,
        ..registers()
    };
    assert_eq!(
        refusal(firmware(), five, 0x7000, &mut list),
        PagingError::FiveLevelPaging
    );
    let pcid = PagingRegisters {
        cr4: CR4_PCIDE,
        ..registers()
    };
    assert_eq!(
        refusal(firmware(), pcid, 0x7000, &mut list),
        PagingError::PcidEnabled
    );
    let executable = PagingRegisters {
        efer: 0,
        ..registers()
    };
    assert_eq!(
        refusal(firmware(), executable, 0x7000, &mut list),
        PagingError::NoExecuteDisabled
    );
    assert_eq!(list.left(), 1, "no frame was spent");
}

#[test]
fn a_root_or_a_stack_that_is_not_identity_mapped_is_refused() {
    let mut list = frames(0x100_0000, 1);
    assert_eq!(
        refusal(firmware(), registers(), 4 * GIB, &mut list),
        PagingError::NotIdentityMapped
    );
    let mut moved = firmware();
    moved.write(PDPT, 0, GIB | PRESENT | WRITABLE | HUGE);
    assert_eq!(
        refusal(moved, registers(), 2 * GIB, &mut list),
        PagingError::NotIdentityMapped
    );
    assert_eq!(list.left(), 1, "no frame was spent");
}

#[test]
fn taking_over_says_why_it_has_no_root() {
    let mut none = frames(0, 0);
    assert_eq!(
        refusal(firmware(), registers(), 0x7000, &mut none),
        PagingError::OutOfFrames
    );
    let mut out_of_reach = frames(4 * GIB, 1);
    assert_eq!(
        refusal(firmware(), registers(), 0x7000, &mut out_of_reach),
        PagingError::TableFrameNotWritable
    );
    let mut in_use = firmware();
    in_use.write(ROOT, 300, PDPT | PRESENT);
    let mut list = frames(0x100_0000, 1);
    assert_eq!(
        refusal(in_use, registers(), 0x7000, &mut list),
        PagingError::KernelSpaceInUse
    );
}

#[test]
fn an_identity_run_ends_with_the_page_that_maps_it() {
    let run = |memory: SimulatedMemory, addr: u64| {
        KernelPageTable::active_identity_writable_run(memory, ROOT | CR3_FLAGS, frame(addr))
    };
    assert_eq!(run(firmware(), 0), Some(GIB));
    assert_eq!(run(firmware(), GIB - PAGE), Some(PAGE));
    assert_eq!(run(firmware(), 4 * GIB), None);
    let mut read_only = firmware();
    read_only.write(PDPT, 1, GIB | PRESENT | HUGE);
    assert_eq!(run(read_only, GIB), None);
    let mut elsewhere = firmware();
    elsewhere.write(PDPT, 1, 2 * GIB | PRESENT | WRITABLE | HUGE);
    assert_eq!(run(elsewhere, GIB), None);
}

#[test]
fn what_one_call_maps_the_next_unmaps() {
    let mut list = frames(0x100_0000, 8);
    let mut table = taken_over(&mut list);
    let (first, second) = (page(KERNEL_SPACE_BASE), page(KERNEL_SPACE_BASE + PAGE));
    let flags = PageFlags::kernel(true, false);
    assert_eq!(table.map(first, frame(0x5000), flags, &mut list), Ok(()));
    assert_eq!(table.map(second, frame(0x6000), flags, &mut list), Ok(()));
    assert_eq!(
        table.translate(VirtAddr::new(KERNEL_SPACE_BASE + 0x123)),
        Some(PhysAddr::new(0x5123))
    );
    assert_eq!(
        table.map(first, frame(0x7000), flags, &mut list),
        Err(MapError::AlreadyMapped)
    );
    assert_eq!(table.unmap(first), Ok(frame(0x5000)));
    assert_eq!(table.translate(VirtAddr::new(KERNEL_SPACE_BASE)), None);
    assert_eq!(
        table.translate(VirtAddr::new(KERNEL_SPACE_BASE + PAGE)),
        Some(PhysAddr::new(0x6000)),
        "the neighbour stays"
    );
    assert_eq!(table.unmap(first), Err(UnmapError::NotMapped));
    // The page can be mapped again, now without a single new table.
    let left = list.left();
    assert_eq!(table.map(first, frame(0x7000), flags, &mut list), Ok(()));
    assert_eq!(list.left(), left);
}

#[test]
fn unmapping_says_why_it_cannot() {
    let mut list = frames(0x100_0000, 8);
    let mut table = taken_over(&mut list);
    assert_eq!(
        table.unmap(page(0x1000)),
        Err(UnmapError::OutsideKernelSpace)
    );
    assert_eq!(
        table.unmap(page(KERNEL_SPACE_BASE)),
        Err(UnmapError::NotMapped)
    );
    let window = VirtAddr::new(KERNEL_PHYSMAP_START);
    assert_eq!(table.map_physical_window(&mut list, window, GIB), Ok(2));
    assert_eq!(
        table.unmap(page(KERNEL_PHYSMAP_START)),
        Err(UnmapError::HugePageInTheWay)
    );
}

#[test]
fn tables_are_reached_through_the_window_once_it_is_used() {
    let mut list = frames(0x100_0000, 6);
    let mut table = taken_over(&mut list);
    let window = VirtAddr::new(KERNEL_PHYSMAP_START);
    assert_eq!(table.map_physical_window(&mut list, window, GIB), Ok(2));
    table.use_physical_window(window);
    assert_eq!(table.tables.access.window(), KERNEL_PHYSMAP_START);
    // A frame that the window does not show cannot become a table.
    let mut far = frames(GIB, 1);
    let flags = PageFlags::kernel(true, false);
    assert_eq!(
        table.map(page(KERNEL_SPACE_BASE), frame(0x5000), flags, &mut far),
        Err(MapError::TableFrameNotWritable)
    );
    assert_eq!(
        table.map(page(KERNEL_SPACE_BASE), frame(0x5000), flags, &mut list),
        Ok(())
    );
}

#[test]
fn page_aligned_ranges_are_never_both_written_and_executed() {
    let mut list = frames(0x100_0000, 16);
    let mut table = taken_over(&mut list);
    let code = MappedRange::read_only_code(PhysRange::new(PhysAddr::new(0x30_0000), 0x3000));
    let data = MappedRange::data(
        PhysRange::new(PhysAddr::new(0x30_3000), 0x1000),
        CachePolicy::WriteBack,
    );
    let stats = table
        .rebuild_identity_map(&mut list, GIB, &[code, data])
        .unwrap();
    assert_eq!(stats.executable_pages, 3);
    assert_eq!(stats.read_only_pages, 3);
    let tables = &table.tables;
    for n in 0..0x400 {
        let addr = 0x20_0000 + n * 0x1000;
        let t = tables.translate(addr).unwrap();
        let executable = (0x30_0000..0x30_3000).contains(&addr);
        assert_eq!(t.phys, addr);
        assert_eq!(t.writable, !executable, "{addr:#x}");
    }
}

#[test]
fn the_last_range_that_has_a_page_decides_how_it_is_kept() {
    let mut list = frames(0x100_0000, 16);
    let mut table = taken_over(&mut list);
    let whole = PhysRange::new(PhysAddr::new(0x5000), 0x3000);
    let middle = PhysRange::new(PhysAddr::new(0x6800), 0x10);
    let keep = [
        MappedRange::data(whole, CachePolicy::WriteBack),
        MappedRange::read_only_code(middle),
    ];
    assert_eq!(table.keep_only_in_lower_half(&mut list, &keep), Ok(3));
    let writable: Vec<Option<bool>> = (4..9)
        .map(|n| table.tables.translate(n * PAGE).map(|t| t.writable))
        .collect();
    assert_eq!(writable, [None, Some(true), Some(false), Some(true), None]);
}

#[test]
fn a_list_of_frames_hands_each_out_once_and_then_none() {
    let mut list = frames(0x1000, 2);
    assert_eq!(list.left(), 2);
    assert_eq!(list.allocate_frame(), Some(frame(0x1000)));
    assert_eq!(list.allocate_frame(), Some(frame(0x2000)));
    assert_eq!(list.allocate_frame(), None);
    assert_eq!(list.allocate_frame(), None);
    assert_eq!(list.left(), 0);
}

#[test]
fn simulated_memory_reads_back_the_last_write() {
    let mut memory = SimulatedMemory::new();
    assert_eq!(memory.read(0x1000, 7), 0);
    memory.write(0x1000, 7, 1);
    memory.write(0x1000, 7, 2);
    memory.write(0x2000, 7, 3);
    assert_eq!(memory.read(0x1000, 7), 2);
    assert_eq!(memory.read(0x1000, 8), 0);
    memory.flush(0x4000);
    memory.flush_all();
    assert_eq!(memory.flushed, [0x4000]);
}

#[test]
fn a_walk_keeps_nothing_but_the_address_of_an_entry() {
    let mut memory = firmware();
    memory.write(ROOT, 1, PDPT | PRESENT | WRITABLE | (1 << 63) | 0xE00);
    let tables = PageTables {
        root: ROOT,
        access: memory,
    };
    let t = tables.translate(1 << 39).unwrap();
    assert_eq!((t.phys, t.writable, t.page_size), (0, true, GIB));
    assert_eq!(PDPT & ADDRESS_MASK, PDPT);
}

#[test]
fn a_page_that_runs_nothing_is_not_counted_as_read_only() {
    let mut list = frames(0x80_0000, 6);
    let mut table = taken_over(&mut list);
    let idle = MappedRange {
        range: PhysRange::new(PhysAddr::new(0x40_0000), 0x1000),
        writable: false,
        executable: false,
        cache: CachePolicy::WriteBack,
    };
    let stats = table.rebuild_identity_map(&mut list, GIB, &[idle]).unwrap();
    assert_eq!((stats.executable_pages, stats.read_only_pages), (0, 0));
    assert!(table.tables.translate(0x40_0000).unwrap().writable);
}

#[test]
fn a_failed_mapping_leaves_the_page_as_it_was() {
    let mut list = frames(0x100_0000, 8);
    let mut table = taken_over(&mut list);
    let (first, far) = (page(KERNEL_SPACE_BASE), page(KERNEL_SPACE_BASE + GIB));
    let flags = PageFlags::kernel(true, false);
    let mut two = frames(0x110_0000, 2);
    assert_eq!(
        table.map(first, frame(0x5000), flags, &mut two),
        Err(MapError::OutOfFrames)
    );
    assert_eq!(table.translate(VirtAddr::new(KERNEL_SPACE_BASE)), None);
    assert_eq!(table.map(far, frame(0x6000), flags, &mut list), Ok(()));
    assert_eq!(
        table.map(far, frame(0x7000), flags, &mut list),
        Err(MapError::AlreadyMapped)
    );
    assert_eq!(
        table.translate(VirtAddr::new(KERNEL_SPACE_BASE + GIB + 7)),
        Some(PhysAddr::new(0x6007))
    );
}
