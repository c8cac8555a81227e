use harlan::arch::paging::model::{GIB, HUGE, LARGE_PAGE, PAGE, PRESENT, WRITABLE};
use harlan::arch::paging::simulated::{SimulatedMemory, TableWrite};
use harlan::arch::paging::{PageTables, TableAccess, Translation, KERNEL_PHYSMAP_START};
use harlan::hal::addr::PhysAddr;
use harlan::hal::frame::{FrameList, PhysFrame, PhysRange};
use harlan::hal::memory_map::CachePolicy;
use harlan::hal::paging::{MappedRange, PageFlags};

const ROOT: u64 = 0x20_0000;
const PDPT: u64 = 0x20_1000;

fn frame(addr: u64) -> PhysFrame {
    PhysFrame::from_start_address(PhysAddr::new(addr)).unwrap()
}

fn frames(count: u64) -> FrameList {
    FrameList::new((0..count).map(|n| frame(0x100_0000 + n * PAGE)).collect())
}

/// An identity map of the first four GiB, and a second slot of the root that
/// leads to the same memory.
fn firmware() -> PageTables<SimulatedMemory> {
    let mut access = SimulatedMemory::new();
    access.write(ROOT, 0, PDPT | PRESENT | WRITABLE);
    access.write(ROOT, 3, PDPT | PRESENT | WRITABLE);
    for gib in 0..4 {
        access.write(PDPT, gib, gib as u64 * GIB | PRESENT | WRITABLE | HUGE);
    }
    PageTables { root: ROOT, access }
}

fn all(tables: &PageTables<SimulatedMemory>, addresses: &[u64]) -> Vec<Option<Translation>> {
    addresses.iter().map(|&va| tables.translate(va)).collect()
}

/// Plays the writes back one by one. Answers how many of the addresses
/// changed.
fn every_moment_is_old_or_new(
    writes: &[TableWrite],
    start: usize,
    old: &[Option<Translation>],
    new: &[Option<Translation>],
    addresses: &[u64],
) -> usize {
    let mut tables = PageTables {
        root: ROOT,
        access: SimulatedMemory::new(),
    };
    for (n, write) in writes.iter().enumerate() {
        tables.access.write(write.table, write.index, write.value);
        if n + 1 >= start {
            let now = all(&tables, addresses);
            for k in 0..addresses.len() {
                assert!(now[k] == old[k] || now[k] == new[k], "write {n}");
            }
        }
    }
    (0..addresses.len()).filter(|&k| old[k] != new[k]).count()
}

#[test]
fn every_moment_of_a_mapping_is_old_or_new() {
    let mut tables = firmware();
    let page: u64 = 0xFFFF_C000_0000_0000;
    let addresses = [0, 0x1234, 3 * GIB, page, page + PAGE, page + LARGE_PAGE];
    let old = all(&tables, &addresses);
    let start = tables.access.writes.len();
    let flags = PageFlags::kernel(true, false);
    assert!(tables.map(page, frame(0x5000), flags, &mut frames(3)).is_ok());
    let new = all(&tables, &addresses);
    let writes = &tables.access.writes;
    // Three tables of their own, three links and the leaf.
    assert_eq!(writes.len() - start, 3 * 513 + 1);
    assert_eq!(
        every_moment_is_old_or_new(writes, start, &old, &new, &addresses),
        1
    );
}

#[test]
fn every_moment_of_a_rebuild_is_old_or_new() {
    let mut tables = firmware();
    let addresses = [0, 0x1234, 0x40_0000, 3 * GIB, 0x180_0000_0000];
    let old = all(&tables, &addresses);
    let start = tables.access.writes.len();
    let code = MappedRange::read_only_code(PhysRange::new(PhysAddr::new(0x40_0000), PAGE));
    assert!(tables.rebuild_identity(&mut frames(5), 2 * GIB, &[code]).is_ok());
    let new = all(&tables, &addresses);
    assert_eq!(new[0], None);
    assert_eq!(new[4], None);
    assert_eq!(
        every_moment_is_old_or_new(&tables.access.writes, start, &old, &new, &addresses),
        5
    );
}

#[test]
fn every_moment_of_opening_the_window_is_old_or_new() {
    let mut tables = firmware();
    let base = KERNEL_PHYSMAP_START;
    let addresses = [0, 0x1234, base, base + GIB + 5, base + 2 * GIB];
    let old = all(&tables, &addresses);
    let start = tables.access.writes.len();
    assert!(tables.map_physical_window(&mut frames(3), base, 2 * GIB).is_ok());
    let new = all(&tables, &addresses);
    assert_eq!(
        every_moment_is_old_or_new(&tables.access.writes, start, &old, &new, &addresses),
        2
    );
}

#[test]
fn every_moment_of_emptying_the_lower_half_is_old_or_new() {
    let mut tables = firmware();
    let addresses = [0, 0x1234, 0x40_0000, 3 * GIB, 0x180_0000_0000];
    let old = all(&tables, &addresses);
    let start = tables.access.writes.len();
    let kept = MappedRange::data(
        PhysRange::new(PhysAddr::new(0x1000), 1),
        CachePolicy::WriteBack,
    );
    assert!(tables.keep_only(&mut frames(3), &[kept]).is_ok());
    let new = all(&tables, &addresses);
    assert!(new[1].is_some());
    assert_eq!(
        every_moment_is_old_or_new(&tables.access.writes, start, &old, &new, &addresses),
        5
    );
}

#[test]
fn adopting_writes_nothing_but_the_new_root() {
    let tables = firmware();
    let start = tables.access.writes.len();
    let adopted = match PageTables::adopt(tables.access, ROOT, &mut frames(1)) {
        Ok(adopted) => adopted,
        Err(error) => panic!("{error:?}"),
    };
    assert_eq!(adopted.root, 0x100_0000);
    let writes = &adopted.access.writes[start..];
    assert_eq!(writes.len(), 1024);
    assert!(writes.iter().all(|write| write.table == 0x100_0000));
}
