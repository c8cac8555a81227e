use harlan::arch::paging::model::{
    ADDRESS_MASK, CACHE_DISABLE, ENTRIES, GIB, HUGE, KERNEL_SPACE_BASE, LARGE_PAGE, NO_EXECUTE,
    PAGE, PRESENT, WRITABLE, WRITE_THROUGH,
};
use harlan::arch::paging::{
    cache_bits, is_canonical, table_indices, IdentityMapStats, PageTables, PagingError,
    TableAccess, KERNEL_HEAP_START, KERNEL_STACKS_START,
};
use harlan::hal::addr::PhysAddr;
use harlan::hal::frame::{FrameAllocator, PhysFrame, PhysRange};
use harlan::hal::memory_map::CachePolicy;
use harlan::hal::paging::{MapError, MappedRange, PageFlags, UnmapError};
use std::collections::{BTreeMap, BTreeSet};

/// What a frame holds before the kernel writes it: present-looking
/// junk, so a table that is not fully zeroed shows up in a walk.
const JUNK: u64 = 0xDEAD_BEEF_DEAD_B0A7;
const USER: u64 = 1 << 2;

/// Simulated physical memory holding page tables. Reading a frame that
/// holds no table fails the test (the walker must never read
/// non-table memory), and so does writing a firmware table.
#[derive(Default)]
struct FakeMemory {
    /// What the walker adds to a table's physical address, as the
    /// kernel's window does once the lower half is gone.
    window: u64,
    tables: BTreeMap<u64, [u64; ENTRIES]>,
    firmware: BTreeSet<u64>,
    writes: Vec<(u64, usize, u64)>,
    flushed: Vec<u64>,
    flushed_all: u32,
}

impl TableAccess for FakeMemory {
    fn window(&self) -> u64 {
        self.window
    }

    fn set_window(&mut self, base: u64) {
        self.window = base;
    }

    fn read(&self, table: u64, index: usize) -> u64 {
        self.tables
            .get(&table)
            .unwrap_or_else(|| panic!("read {table:#x}, which holds no table"))[index]
    }

    fn write(&mut self, table: u64, index: usize, value: u64) {
        assert!(
            !self.firmware.contains(&table),
            "wrote firmware table {table:#x}"
        );
        self.tables.entry(table).or_insert([JUNK; ENTRIES])[index] = value;
        self.writes.push((table, index, value));
    }

    fn flush(&mut self, va: u64) {
        self.flushed.push(va);
    }

    fn flush_all(&mut self) {
        self.flushed_all += 1;
    }
}

struct Frames(Vec<u64>);

impl FrameAllocator for Frames {
    fn allocate_frame(&mut self) -> Option<PhysFrame> {
        if self.0.is_empty() {
            None
        } else {
            PhysFrame::from_start_address(PhysAddr::new(self.0.remove(0)))
        }
    }
}

const FW_ROOT: u64 = 0x20_0000;
const FW_PDPT: u64 = 0x20_1000;
const FW_PD: u64 = 0x20_2000;
const MIB: u64 = 1 << 20;

fn data() -> PageFlags {
    PageFlags::kernel(true, false)
}

/// Firmware-style tables: identity map of the first 16 MiB in 2 MiB
/// pages, with the 2 MiB page that holds the tables themselves mapped
/// read-only, as OVMF does.
fn firmware() -> FakeMemory {
    let mut root = [0; ENTRIES];
    root[0] = FW_PDPT | PRESENT | WRITABLE;
    let mut pdpt = [0; ENTRIES];
    pdpt[0] = FW_PD | PRESENT | WRITABLE;
    let mut pd = [0; ENTRIES];
    for (k, entry) in pd.iter_mut().enumerate().take(8) {
        *entry = (k as u64 * 2 * MIB) | PRESENT | WRITABLE | HUGE;
    }
    pd[1] &= !WRITABLE;
    let mut memory = FakeMemory::default();
    for (addr, table) in [(FW_ROOT, root), (FW_PDPT, pdpt), (FW_PD, pd)] {
        memory.tables.insert(addr, table);
        memory.firmware.insert(addr);
    }
    memory
}

fn adopted(frames: &mut Frames) -> PageTables<FakeMemory> {
    PageTables::adopt(firmware(), FW_ROOT, frames).unwrap()
}

fn page(offset: u64) -> u64 {
    KERNEL_SPACE_BASE + offset
}

fn frame(addr: u64) -> PhysFrame {
    PhysFrame::from_start_address(PhysAddr::new(addr)).unwrap()
}

/// The entry that maps `addr`, whatever level resolves it.
fn leaf_entry(tables: &PageTables<FakeMemory>, addr: u64) -> u64 {
    let mut table = tables.root;
    for (level, index) in table_indices(addr).into_iter().enumerate() {
        let entry = tables.access.read(table, index);
        if level == 3 || entry & HUGE != 0 {
            return entry;
        }
        table = entry & ADDRESS_MASK;
    }
    unreachable!()
}

#[test]
fn table_indices_split_an_address_in_walk_order() {
    assert_eq!(table_indices(KERNEL_SPACE_BASE), [256, 0, 0, 0]);
    let va = KERNEL_SPACE_BASE + (1 << 39) + (2 << 30) + (3 << 21) + (4 << 12) + 0x123;
    assert_eq!(table_indices(va), [257, 2, 3, 4]);
    assert_eq!(table_indices(0x0000_7FFF_FFFF_F000), [255, 511, 511, 511]);
}

#[test]
fn the_heap_and_the_stacks_each_have_a_kernel_space_slot() {
    let (heap, stacks) = (KERNEL_HEAP_START, KERNEL_STACKS_START);
    assert!(is_canonical(heap) && is_canonical(stacks));
    assert_eq!(table_indices(heap), [257, 0, 0, 0]);
    assert_eq!(table_indices(stacks), [258, 0, 0, 0]);
}

#[test]
fn canonical_addresses_repeat_bit_47() {
    assert!(is_canonical(0x0000_7FFF_FFFF_FFFF));
    assert!(!is_canonical(0x0000_8000_0000_0000));
    assert!(is_canonical(KERNEL_SPACE_BASE));
    assert!(!is_canonical(0xFFFF_7FFF_FFFF_FFFF));
}

#[test]
fn translate_follows_the_firmware_identity_map() {
    let tables = PageTables {
        root: FW_ROOT,
        access: firmware(),
    };
    let t = tables.translate(0x5_4321).unwrap();
    assert_eq!((t.phys, t.writable), (0x5_4321, true));
    let t = tables.translate(FW_PD + 8).unwrap();
    assert_eq!((t.phys, t.writable), (FW_PD + 8, false));
    assert!(tables.translate(16 * MIB).is_none());
    assert!(tables.translate(1 << 47).is_none());
}

#[test]
fn translate_handles_1_gib_pages_and_ignores_their_pat_bit() {
    let mut memory = firmware();
    memory.tables.get_mut(&FW_PDPT).unwrap()[1] =
        (1 << 30) | PRESENT | WRITABLE | HUGE | (1 << 12);
    let tables = PageTables {
        root: FW_ROOT,
        access: memory,
    };
    assert_eq!(
        tables.translate((1 << 30) + 0x1234).unwrap().phys,
        (1 << 30) + 0x1234
    );
}

#[test]
fn adopt_copies_the_root_into_a_frame_of_its_own() {
    let mut frames = Frames(vec![0x40_0000]);
    let tables = adopted(&mut frames);
    assert_eq!(tables.root, 0x40_0000);
    assert_eq!(
        tables.access.tables[&0x40_0000],
        tables.access.tables[&FW_ROOT]
    );
    assert_eq!(tables.translate(0x5_4321).unwrap().phys, 0x5_4321);
    // Every write went to the new root (FakeMemory also rejects
    // writes to firmware tables outright).
    assert!(tables.access.writes.iter().all(|&(t, _, _)| t == 0x40_0000));
}

#[test]
fn adopt_refuses_a_root_frame_it_cannot_write() {
    let mut frames = Frames(vec![FW_ROOT + 0x3000]); // in the read-only 2 MiB page
    let err = PageTables::adopt(firmware(), FW_ROOT, &mut frames).err();
    assert_eq!(err, Some(PagingError::TableFrameNotWritable));
}

#[test]
fn adopt_refuses_firmware_tables_that_use_kernel_space() {
    let mut memory = firmware();
    memory.tables.get_mut(&FW_ROOT).unwrap()[300] = FW_PDPT | PRESENT;
    let err = PageTables::adopt(memory, FW_ROOT, &mut Frames(vec![0x40_0000])).err();
    assert_eq!(err, Some(PagingError::KernelSpaceInUse));
}

#[test]
fn map_builds_zeroed_tables_and_a_no_execute_data_leaf() {
    let mut frames = Frames(vec![0x40_0000, 0x40_1000, 0x40_2000, 0x40_3000]);
    let mut tables = adopted(&mut frames);
    tables
        .map(page(0x5000), frame(0x90_0000), data(), &mut frames)
        .unwrap();

    assert!(frames.0.is_empty(), "PDPT, PD and PT should all be new");
    let t = tables.translate(page(0x5010)).unwrap();
    assert_eq!((t.phys, t.writable), (0x90_0010, true));
    let leaf = tables.access.tables[&0x40_3000][5];
    assert_eq!(leaf, 0x90_0000 | PRESENT | WRITABLE | NO_EXECUTE);
    assert_eq!(leaf & USER, 0);
    for table in [0x40_1000, 0x40_2000, 0x40_3000] {
        let linked = tables.access.tables[&table]
            .iter()
            .filter(|&&e| e != 0)
            .count();
        assert_eq!(linked, 1, "table {table:#x} holds junk");
    }
    assert_eq!(tables.access.flushed, [page(0x5000)]);
}

#[test]
fn tables_are_fully_zeroed_before_they_are_linked() {
    let mut frames = Frames(vec![0x40_0000, 0x40_1000, 0x40_2000, 0x40_3000]);
    let mut tables = adopted(&mut frames);
    tables
        .map(page(0), frame(0x90_0000), data(), &mut frames)
        .unwrap();
    let writes = &tables.access.writes;
    for table in [0x40_1000u64, 0x40_2000, 0x40_3000] {
        // The write that makes another table point at this one...
        let link = writes
            .iter()
            .position(|&(t, _, v)| t != table && v & ADDRESS_MASK == table)
            .unwrap();
        // ...comes after every one of its entries was zeroed.
        let zeroed: BTreeSet<usize> = writes[..link]
            .iter()
            .filter(|&&(t, _, v)| t == table && v == 0)
            .map(|&(_, index, _)| index)
            .collect();
        assert_eq!(
            zeroed.len(),
            ENTRIES,
            "{table:#x} linked before it was zeroed"
        );
    }
}

#[test]
fn a_neighbouring_page_reuses_the_tables() {
    let mut frames = Frames(vec![0x40_0000, 0x40_1000, 0x40_2000, 0x40_3000, 0x40_4000]);
    let mut tables = adopted(&mut frames);
    tables
        .map(page(0), frame(0x90_0000), data(), &mut frames)
        .unwrap();
    tables
        .map(page(0x1000), frame(0x91_0000), data(), &mut frames)
        .unwrap();
    assert_eq!(frames.0, [0x40_4000]);
    assert_eq!(tables.translate(page(0x1000)).unwrap().phys, 0x91_0000);
}

#[test]
fn read_only_executable_flags_give_a_bare_present_leaf() {
    let mut frames = Frames(vec![0x40_0000, 0x40_1000, 0x40_2000, 0x40_3000]);
    let mut tables = adopted(&mut frames);
    let flags = PageFlags::kernel(false, true);
    tables
        .map(page(0), frame(0x90_0000), flags, &mut frames)
        .unwrap();
    assert_eq!(tables.access.tables[&0x40_3000][0], 0x90_0000 | PRESENT);
    assert!(!tables.translate(page(0)).unwrap().writable);
}

#[test]
fn mapping_an_already_mapped_page_is_refused_without_allocating() {
    let mut frames = Frames(vec![0x40_0000, 0x40_1000, 0x40_2000, 0x40_3000, 0x40_4000]);
    let mut tables = adopted(&mut frames);
    tables
        .map(page(0), frame(0x90_0000), data(), &mut frames)
        .unwrap();
    let err = tables.map(page(0), frame(0x91_0000), data(), &mut frames);
    assert_eq!(err, Err(MapError::AlreadyMapped));
    assert_eq!(frames.0, [0x40_4000]);
    assert_eq!(tables.translate(page(0)).unwrap().phys, 0x90_0000);
}

#[test]
fn pages_outside_kernel_space_are_refused_without_writing() {
    let mut frames = Frames(vec![0x40_0000, 0x40_1000]);
    let mut tables = adopted(&mut frames);
    let writes_before = tables.access.writes.len();
    let err = tables.map(0x60_0000, frame(0x90_0000), data(), &mut frames);
    assert_eq!(err, Err(MapError::OutsideKernelSpace));
    assert_eq!(tables.unmap(0x60_0000), Err(UnmapError::OutsideKernelSpace));
    assert_eq!(tables.access.writes.len(), writes_before);
    assert_eq!(frames.0, [0x40_1000]);
}

#[test]
fn running_out_of_frames_leaves_only_complete_tables_behind() {
    let mut frames = Frames(vec![0x40_0000, 0x40_1000]);
    let mut tables = adopted(&mut frames);
    let err = tables.map(page(0), frame(0x90_0000), data(), &mut frames);
    assert_eq!(err, Err(MapError::OutOfFrames));
    // The PDPT that was built is linked and fully zeroed; nothing else.
    assert_eq!(tables.access.tables[&0x40_1000], [0; ENTRIES]);
    assert!(tables.translate(page(0)).is_none());
    // A later attempt with frames to spare reuses it.
    let mut more = Frames(vec![0x40_2000, 0x40_3000]);
    tables
        .map(page(0), frame(0x90_0000), data(), &mut more)
        .unwrap();
    assert_eq!(tables.translate(page(0)).unwrap().phys, 0x90_0000);
}

#[test]
fn a_table_frame_that_cannot_be_written_is_refused_and_not_linked() {
    let mut frames = Frames(vec![0x40_0000, FW_ROOT + 0x3000]);
    let mut tables = adopted(&mut frames);
    let err = tables.map(page(0), frame(0x90_0000), data(), &mut frames);
    assert_eq!(err, Err(MapError::TableFrameNotWritable));
    assert_eq!(tables.access.tables[&0x40_0000][256], 0);
}

#[test]
fn unmap_returns_the_frame_and_flushes_the_translation() {
    let mut frames = Frames(vec![0x40_0000, 0x40_1000, 0x40_2000, 0x40_3000]);
    let mut tables = adopted(&mut frames);
    tables
        .map(page(0x7000), frame(0x90_0000), data(), &mut frames)
        .unwrap();
    assert_eq!(tables.unmap(page(0x7000)), Ok(frame(0x90_0000)));
    assert!(tables.translate(page(0x7000)).is_none());
    assert_eq!(tables.access.flushed, [page(0x7000), page(0x7000)]);
    assert_eq!(tables.unmap(page(0x7000)), Err(UnmapError::NotMapped));
    assert_eq!(tables.unmap(page(1 << 39)), Err(UnmapError::NotMapped));
}

#[test]
fn rebuilding_the_identity_map_leaves_the_null_page_out() {
    let mut frames = Frames(vec![0x40_0000, 0x40_1000, 0x40_2000, 0x40_3000]);
    let mut tables = adopted(&mut frames);
    // 1 GiB: one PDPT, one page directory and one page table.
    let stats = tables.rebuild_identity(&mut frames, GIB, &[]).unwrap();
    assert_eq!(
        stats,
        IdentityMapStats {
            tables: 3,
            limit: GIB,
            executable_pages: 0,
            read_only_pages: 0,
        }
    );

    assert_eq!(tables.translate(0), None, "the null page must be unmapped");
    for addr in [PAGE, 0x1234 + PAGE, LARGE_PAGE, GIB - PAGE, GIB - 1] {
        let seen = tables.translate(addr).expect("identity mapped");
        assert_eq!((seen.phys, seen.writable), (addr, true), "{addr:#x}");
    }
    assert_eq!(tables.translate(GIB), None, "nothing above the limit");
    assert_eq!(tables.access.flushed_all, 1);
    // The firmware's own tables were never written.
    assert!(
        tables
            .access
            .writes
            .iter()
            .all(|&(table, _, _)| table != FW_PDPT && table != FW_PD)
    );
}

/// Everything is no-execute but the ranges that hold code, and only the
/// 2 MiB regions those fall in are split into 4 KiB pages.
#[test]
fn only_the_ranges_that_hold_code_stay_executable() {
    let image = PhysRange::new(PhysAddr::new(0x40_0000 + 0x2000), 2 * PAGE);
    let mut frames = Frames(vec![
        0x80_0000, 0x80_1000, 0x80_2000, 0x80_3000, 0x80_4000, 0x80_5000,
    ]);
    let mut tables = adopted(&mut frames);
    let stats = tables
        .rebuild_identity(&mut frames, GIB, &[MappedRange::read_only_code(image)])
        .unwrap();
    // PDPT, page directory, the first 2 MiB, and the 2 MiB with the image.
    assert_eq!((stats.tables, stats.executable_pages), (4, 2));

    let executable = |addr: u64| {
        let mut table = tables.root;
        for (level, index) in table_indices(addr).into_iter().enumerate() {
            let entry = tables.access.read(table, index);
            assert_ne!(entry & PRESENT, 0, "{addr:#x} is not mapped");
            if entry & NO_EXECUTE != 0 {
                return false;
            }
            if level == 3 || entry & HUGE != 0 {
                return true;
            }
            table = entry & ADDRESS_MASK;
        }
        unreachable!()
    };
    assert!(executable(image.start.as_u64()) && executable(image.end().as_u64() - 1));
    assert!(
        !executable(image.start.as_u64() - PAGE),
        "the page below the image"
    );
    assert!(
        !executable(image.end().as_u64()),
        "the page above the image"
    );
    assert!(!executable(0x1000), "low memory is data");
    assert!(!executable(0x2000_0000), "a plain 2 MiB page");
}

#[test]
fn rebuilding_keeps_kernel_space_and_drops_the_rest_of_the_lower_half() {
    let mut frames = Frames(vec![0x40_0000, 0x40_1000, 0x40_2000, 0x40_3000, 0x40_4000]);
    let mut tables = adopted(&mut frames);
    // Something of the kernel's own in the higher half...
    tables
        .access
        .write(tables.root, 300, 0x50_0000 | PRESENT | WRITABLE);
    // ...and a leftover the firmware had mapped high in the lower half.
    tables
        .access
        .write(tables.root, 200, 0x60_0000 | PRESENT | WRITABLE);

    tables.rebuild_identity(&mut frames, GIB, &[]).unwrap();

    let root = tables.access.tables[&tables.root];
    assert_eq!(root[300], 0x50_0000 | PRESENT | WRITABLE, "kernel space");
    assert_eq!(
        root[200], 0,
        "the lower half is the new map and nothing else"
    );
    assert_ne!(root[0], 0);
}

#[test]
fn a_bad_limit_or_too_few_frames_leaves_the_old_map_alone() {
    let mut frames = Frames(vec![0x40_0000, 0x40_1000]);
    let mut tables = adopted(&mut frames);
    let before = tables.access.tables[&tables.root][0];

    assert_eq!(
        tables.rebuild_identity(&mut frames, GIB + PAGE, &[]),
        Err(PagingError::BadIdentityLimit)
    );
    assert_eq!(
        tables.rebuild_identity(&mut frames, 1024 * GIB, &[]),
        Err(PagingError::BadIdentityLimit)
    );
    // One frame short of the PDPT, directory and page table it needs.
    assert_eq!(
        tables.rebuild_identity(&mut frames, GIB, &[]),
        Err(PagingError::OutOfFrames)
    );
    assert_eq!(tables.access.tables[&tables.root][0], before);
    assert_eq!(tables.translate(0x5_4321).unwrap().phys, 0x5_4321);
    assert_eq!(tables.access.flushed_all, 0);
}

#[test]
fn executable_ranges_must_fit_entirely_inside_the_new_map() {
    let mut frames = Frames(vec![0x40_0000, 0x40_1000, 0x40_2000, 0x40_3000]);
    let mut tables = adopted(&mut frames);
    let outside = PhysRange::new(PhysAddr::new(GIB - PAGE), 2 * PAGE);
    assert_eq!(
        tables.rebuild_identity(&mut frames, GIB, &[MappedRange::read_only_code(outside)]),
        Err(PagingError::RequiredRangeOutsideIdentityMap)
    );
    assert_eq!(tables.access.flushed_all, 0);
}

/// Write xor execute: a page that holds nothing but code is mapped
/// executable and read-only; one that mixes code and data has to stay
/// writable, and then it is not read-only even though it runs.
#[test]
fn pages_that_are_only_code_are_mapped_read_only() {
    let aligned = PhysRange::new(PhysAddr::new(0x40_0000), 2 * PAGE);
    let straddling = PhysRange::new(PhysAddr::new(0x60_0800), PAGE);
    let mut frames = Frames(vec![
        0x80_0000, 0x80_1000, 0x80_2000, 0x80_3000, 0x80_4000, 0x80_5000, 0x80_6000,
    ]);
    let mut tables = adopted(&mut frames);
    let stats = tables
        .rebuild_identity(
            &mut frames,
            GIB,
            &[
                MappedRange::read_only_code(aligned),
                MappedRange::read_only_code(straddling),
            ],
        )
        .unwrap();
    // Two whole pages of code, plus the two the straddling range
    // touches.
    assert_eq!((stats.executable_pages, stats.read_only_pages), (4, 2));

    let leaf = |addr: u64| leaf_entry(&tables, addr);
    for addr in [aligned.start.as_u64(), aligned.start.as_u64() + PAGE] {
        let entry = leaf(addr);
        assert_eq!(entry & NO_EXECUTE, 0, "{addr:#x} must run");
        assert_eq!(entry & WRITABLE, 0, "{addr:#x} must not be writable");
    }
    for addr in [straddling.start.as_u64(), straddling.end().as_u64() - 1] {
        let entry = leaf(addr);
        assert_eq!(entry & NO_EXECUTE, 0, "{addr:#x} must run");
        assert_ne!(
            entry & WRITABLE,
            0,
            "{addr:#x} shares its page with data and must stay writable"
        );
    }
    // Plain data is writable and no-execute, as before.
    let data = leaf(0x10_0000);
    assert_ne!(data & WRITABLE, 0);
    assert_ne!(data & NO_EXECUTE, 0);
}

/// OVMF writes inside its own runtime services code, so a range the
/// kernel does not control keeps its pages writable even though they
/// run. Mapping them read-only faults on `shutdown` (measured).
/// The window covers every byte of `[0, limit)`, writable and never
/// executable, and lands only on its own PML4 slot.
#[test]
fn the_physical_window_reaches_all_of_memory_and_runs_none_of_it() {
    let mut frames = Frames(vec![0x40_0000, 0x40_1000, 0x40_2000, 0x40_3000]);
    let mut tables = adopted(&mut frames);
    let base = KERNEL_SPACE_BASE + 4 * (1 << 39);
    // One PDPT plus one page directory per GiB.
    assert_eq!(
        tables.map_physical_window(&mut frames, base, 2 * GIB),
        Ok(3)
    );
    for physical in [0, PAGE, LARGE_PAGE, GIB, 2 * GIB - PAGE] {
        let seen = tables
            .translate(base + physical)
            .unwrap_or_else(|| panic!("{physical:#x} is not in the window"));
        assert_eq!((seen.phys, seen.writable), (physical, true));
        let entry = leaf_entry(&tables, base + physical);
        assert_ne!(entry & NO_EXECUTE, 0, "the window must never run code");
        assert_ne!(entry & HUGE, 0, "2 MiB pages, not one table per 4 KiB");
    }
    // Nothing past the limit, and the kernel's other slots untouched.
    assert_eq!(tables.translate(base + 2 * GIB), None);
    assert_eq!(tables.translate(KERNEL_SPACE_BASE), None);
}

/// What the kernel does once it needs nothing down there: the lower
/// half keeps the firmware's code and loses everything else.
#[test]
fn keeping_only_the_firmware_empties_the_rest_of_the_lower_half() {
    let mut frames = Frames(vec![
        0x40_0000, 0x40_1000, 0x40_2000, 0x40_3000, 0x40_4000, 0x40_5000,
    ]);
    let mut tables = adopted(&mut frames);
    // A range that straddles two pages, to check both are kept.
    let firmware = PhysRange::new(PhysAddr::new(0x60_0FF0), 0x20);
    // What that code keeps between calls: mapped too, and never
    // executable.
    let data = PhysRange::new(PhysAddr::new(0x70_0000), PAGE);
    let kept = tables
        .keep_only(
            &mut frames,
            &[
                MappedRange::writable_code(firmware, CachePolicy::WriteBack),
                MappedRange::data(data, CachePolicy::WriteBack),
            ],
        )
        .expect("keeping the firmware");
    // A PDPT, one page directory and one page table: 6 MiB and
    // 7 MiB share the same 2 MiB slot.
    assert_eq!(kept, 3);

    for addr in [0x60_0000, 0x60_1000] {
        let seen = tables
            .translate(addr)
            .unwrap_or_else(|| panic!("{addr:#x} must stay mapped"));
        assert_eq!((seen.phys, seen.writable), (addr, true));
        assert_eq!(
            leaf_entry(&tables, addr) & NO_EXECUTE,
            0,
            "the firmware runs from here"
        );
    }
    let entry = leaf_entry(&tables, data.start.as_u64());
    assert_ne!(entry & PRESENT, 0, "the firmware's data stays mapped");
    assert_ne!(entry & WRITABLE, 0, "and writable");
    assert_ne!(entry & NO_EXECUTE, 0, "but nothing runs from it");

    // Everything else in the lower half is gone, including what the
    // firmware's own map had.
    for addr in [0x0, PAGE, 0x10_0000, 0x60_2000, 4 * MIB, GIB] {
        assert_eq!(tables.translate(addr), None, "{addr:#x} must be unmapped");
    }
}

/// Memory-mapped I/O the firmware talks to has to keep the caching
/// it was reported with: write-back there would corrupt the device
/// behind it.
#[test]
fn what_stays_mapped_keeps_the_caching_it_was_reported_with() {
    let mut frames = Frames(vec![
        0x40_0000, 0x40_1000, 0x40_2000, 0x40_3000, 0x40_4000, 0x40_5000,
    ]);
    let mut tables = adopted(&mut frames);
    let mmio = PhysRange::new(PhysAddr::new(0x60_0000), PAGE);
    let ram = PhysRange::new(PhysAddr::new(0x60_1000), PAGE);
    tables
        .keep_only(
            &mut frames,
            &[
                MappedRange::data(mmio, CachePolicy::Uncacheable),
                MappedRange::data(ram, CachePolicy::WriteBack),
            ],
        )
        .expect("keeping both");

    let device = leaf_entry(&tables, mmio.start.as_u64());
    assert_ne!(device & CACHE_DISABLE, 0, "the device must not be cached");
    assert_ne!(device & WRITE_THROUGH, 0);
    let memory = leaf_entry(&tables, ram.start.as_u64());
    assert_eq!(
        memory & (CACHE_DISABLE | WRITE_THROUGH),
        0,
        "RAM is write-back"
    );

    // Write-combining is not available until the PAT is reprogrammed,
    // so it is mapped uncacheable: slower, never wrong.
    assert_eq!(
        cache_bits(CachePolicy::WriteCombining),
        cache_bits(CachePolicy::Uncacheable)
    );
    assert_eq!(cache_bits(CachePolicy::WriteThrough), WRITE_THROUGH);
    assert_eq!(cache_bits(CachePolicy::Unspecified), 0);
}

#[test]
fn keeping_a_range_that_is_not_in_the_lower_half_is_refused() {
    let mut frames = Frames(vec![0x40_0000, 0x40_1000, 0x40_2000]);
    let mut tables = adopted(&mut frames);
    let too_high = PhysRange::new(PhysAddr::new(512 * GIB), PAGE);
    assert_eq!(
        tables.keep_only(
            &mut frames,
            &[MappedRange::writable_code(too_high, CachePolicy::WriteBack)]
        ),
        Err(PagingError::RequiredRangeOutsideIdentityMap)
    );
}

#[test]
fn the_physical_window_refuses_a_place_that_is_not_its_own() {
    let mut frames = Frames(vec![
        0x40_0000, 0x40_1000, 0x40_2000, 0x40_3000, 0x40_4000, 0x40_5000,
    ]);
    let mut tables = adopted(&mut frames);
    // In the lower half, which is user space.
    assert_eq!(
        tables.map_physical_window(&mut frames, 0x4000_0000, GIB),
        Err(PagingError::WindowOutsideKernelSpace)
    );
    // Not at the start of a PML4 slot.
    assert_eq!(
        tables.map_physical_window(&mut frames, KERNEL_SPACE_BASE + GIB, GIB),
        Err(PagingError::WindowOutsideKernelSpace)
    );
    // A limit that is not whole GiB.
    assert_eq!(
        tables.map_physical_window(&mut frames, KERNEL_SPACE_BASE, GIB + PAGE),
        Err(PagingError::BadIdentityLimit)
    );
    // And the slot cannot be taken twice.
    let base = KERNEL_SPACE_BASE + 4 * (1 << 39);
    assert_eq!(tables.map_physical_window(&mut frames, base, GIB), Ok(2));
    assert_eq!(
        tables.map_physical_window(&mut frames, base, GIB),
        Err(PagingError::WindowSlotTaken)
    );
}

#[test]
fn code_someone_else_writes_into_stays_writable() {
    let firmware = PhysRange::new(PhysAddr::new(0x40_0000), 2 * PAGE);
    let mut frames = Frames(vec![
        0x80_0000, 0x80_1000, 0x80_2000, 0x80_3000, 0x80_4000, 0x80_5000,
    ]);
    let mut tables = adopted(&mut frames);
    let stats = tables
        .rebuild_identity(
            &mut frames,
            GIB,
            &[MappedRange::writable_code(firmware, CachePolicy::WriteBack)],
        )
        .unwrap();
    assert_eq!((stats.executable_pages, stats.read_only_pages), (2, 0));
    for addr in [firmware.start.as_u64(), firmware.end().as_u64() - PAGE] {
        let entry = leaf_entry(&tables, addr);
        assert_eq!(entry & NO_EXECUTE, 0, "{addr:#x} must run");
        assert_ne!(entry & WRITABLE, 0, "{addr:#x} must stay writable");
    }
}

/// A page for ring 3 carries the user bit all the way up the walk —
/// the CPU ands them — and the kernel's pages never carry it.
#[test]
fn user_pages_are_reachable_from_ring_three_and_kernel_pages_are_not() {
    let mut frames = Frames(vec![
        0x40_0000, 0x40_1000, 0x40_2000, 0x40_3000, 0x40_4000, 0x40_5000, 0x40_6000, 0x40_7000,
        0x40_8000,
    ]);
    let mut tables = adopted(&mut frames);
    // The lower half has to be the kernel's before anything can be
    // mapped into it: the firmware's tables are read-only, which is
    // exactly what `keep_only` leaves behind.
    // The kernel reaches tables through its window from here on,
    // exactly as it does afterwards.
    let window = KERNEL_SPACE_BASE + 4 * (1 << 39);
    tables
        .map_physical_window(&mut frames, window, GIB)
        .expect("the window");
    tables.access.window = window;
    tables.keep_only(&mut frames, &[]).expect("emptying it");
    let user = 0x0000_0000_2000_0000;
    tables
        .map(
            user,
            frame(0x50_0000),
            PageFlags::user(true, true),
            &mut frames,
        )
        .expect("mapping a page for the program");

    let mut table = tables.root;
    for (level, index) in table_indices(user).into_iter().enumerate() {
        let entry = tables.access.read(table, index);
        assert_ne!(entry & USER, 0, "level {level} must allow ring 3");
        if level == 3 {
            assert_eq!(entry & NO_EXECUTE, 0, "the program has to run");
            break;
        }
        table = entry & ADDRESS_MASK;
    }

    // A page of the kernel's, mapped the same way, stays out of
    // reach from ring 3.
    tables
        .map(
            page(0),
            frame(0x51_0000),
            PageFlags::kernel(true, false),
            &mut frames,
        )
        .expect("mapping a page of the kernel's");
    assert_eq!(leaf_entry(&tables, page(0)) & USER, 0);
}

#[test]
fn a_page_is_either_the_kernel_s_or_a_program_s_and_says_which() {
    let mut frames = Frames(vec![0x40_0000, 0x40_1000, 0x40_2000, 0x40_3000]);
    let mut tables = adopted(&mut frames);
    // Refused before any table is even looked at, so no `keep_only`
    // is needed here.
    // The kernel cannot take a page of user space...
    assert_eq!(
        tables.map(
            0x2000_0000,
            frame(0x50_0000),
            PageFlags::kernel(true, false),
            &mut frames
        ),
        Err(MapError::OutsideKernelSpace)
    );
    // ...and a program cannot be handed one of the kernel's.
    assert_eq!(
        tables.map(
            page(0),
            frame(0x50_0000),
            PageFlags::user(true, false),
            &mut frames
        ),
        Err(MapError::OutsideKernelSpace)
    );
}

#[test]
fn translate_reports_the_page_that_resolved_it() {
    let mut frames = Frames(vec![0x40_0000, 0x40_1000, 0x40_2000, 0x40_3000]);
    let mut tables = adopted(&mut frames);
    // Inside the firmware's 2 MiB pages, a walk that lands anywhere
    // answers for the whole page, so a range check can skip to its end.
    let inside = 5 * MIB + 0x123;
    let large = tables.translate(inside).unwrap();
    assert_eq!(
        (large.page_size, large.phys, large.writable),
        (LARGE_PAGE, inside, true)
    );
    // From a frame-aligned address the remaining run is a whole
    // number of frames, which is how the kernel asks.
    let aligned = 5 * MIB;
    let run = large.page_size - (aligned & (large.page_size - 1));
    assert_eq!(run, MIB);
    assert_eq!(run % PAGE, 0);
    // A 4 KiB mapping answers for 4 KiB only.
    tables
        .map(page(0), frame(0x50_0000), data(), &mut frames)
        .unwrap();
    assert_eq!(tables.translate(page(0)).unwrap().page_size, PAGE);
}

#[test]
fn large_pages_in_kernel_space_are_not_split() {
    let mut frames = Frames(vec![0x40_0000, 0x40_1000, 0x40_2000]);
    let mut tables = adopted(&mut frames);
    tables.access.tables.insert(0x40_1000, [0; ENTRIES]);
    tables.access.tables.get_mut(&0x40_1000).unwrap()[0] =
        0x4000_0000 | PRESENT | WRITABLE | HUGE;
    tables.access.tables.get_mut(&0x40_0000).unwrap()[256] = 0x40_1000 | PRESENT | WRITABLE;
    let err = tables.map(page(0), frame(0x90_0000), data(), &mut frames);
    assert_eq!(err, Err(MapError::HugePageInTheWay));
    assert_eq!(tables.unmap(page(0)), Err(UnmapError::HugePageInTheWay));
    assert_eq!(tables.translate(page(0x1234)).unwrap().phys, 0x4000_1234);
}
