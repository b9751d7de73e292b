use ab_os_bel::frame_alloc::{AreaFrameAllocator, Frame, MemoryRegion, MemoryRegionKind};
use ab_os_bel::paging::{
    ActivePageTable, Entry, EntryFlags, Level1, Level2, MapToError, Page, Table,
    HUGE_PAGE, NO_EXECUTE, PRESENT, WRITABLE,
};
use std::collections::HashMap;

const FAR: usize = 0x1000_0000;

/// An allocator over frames 0x100 to 0x1ff.
fn allocator() -> AreaFrameAllocator {
    let region = MemoryRegion {
        start_address: 0x10_0000,
        length: 0x10_0000,
        kind: MemoryRegionKind::Available,
    };
    AreaFrameAllocator::new(FAR, FAR, FAR, FAR, vec![region])
}

fn rw() -> EntryFlags {
    EntryFlags::from_bits_truncate(WRITABLE)
}

#[test]
fn page_from_address() {
    let p = Page::from_address(0x1234_5678);
    assert_eq!(p.start_address(), 0x1234_5000);
    let high = Page::from_address(0xFFFF_8000_0000_1000);
    assert_eq!(high.start_address(), 0xFFFF_8000_0000_1000);
}

#[test]
fn entry_flags_operations() {
    let f = EntryFlags::from_bits_truncate(PRESENT | WRITABLE | 0x000F_0000_0000_0000 | NO_EXECUTE);
    assert_eq!(f.bits(), PRESENT | WRITABLE | NO_EXECUTE);
    assert!(f.contains(EntryFlags::from_bits_truncate(PRESENT)));
    assert!(!f.contains(EntryFlags::from_bits_truncate(HUGE_PAGE)));
    assert_eq!(EntryFlags::empty().union(rw()).bits(), WRITABLE);
}

#[test]
fn entry_set_and_read() {
    let mut e = Entry::unused();
    assert!(e.is_unused());
    assert_eq!(e.pointed_frame(), None);
    e.set(Frame { number: 0xABCDE }, EntryFlags::from_bits_truncate(PRESENT | WRITABLE));
    assert!(!e.is_unused());
    assert_eq!(e.pointed_frame(), Some(Frame { number: 0xABCDE }));
    assert_eq!(e.flags().bits(), PRESENT | WRITABLE);
    e.set(Frame { number: 7 }, rw());
    assert_eq!(e.pointed_frame(), None);
    assert!(!e.is_unused());
    e.set_unused();
    assert!(e.is_unused());
}

#[test]
fn table_entries_clear() {
    let mut t: Table<Level1> = Table::new();
    assert!(t.entry(511).is_unused());
    t.clear_all_entries();
    assert!(t.entry(0).is_unused());
}

#[test]
fn next_table_create_makes_one_table() {
    let mut alloc = allocator();
    let mut parent: Table<Level2> = Table::new();
    let mut children: HashMap<usize, Table<Level1>> = HashMap::new();
    let f = parent.next_table_create(5, &mut children, &mut alloc).unwrap();
    assert_eq!(f, 0x100);
    assert_eq!(parent.entry(5).pointed_frame(), Some(Frame { number: 0x100 }));
    assert_eq!(parent.entry(5).flags().bits(), PRESENT | WRITABLE);
    assert!(children[&0x100].entry(0).is_unused());
    let again = parent.next_table_create(5, &mut children, &mut alloc).unwrap();
    assert_eq!(again, 0x100);
    assert_eq!(children.len(), 1);
    assert!(parent.next_table(5, &children).is_some());
    assert!(parent.next_table(6, &children).is_none());
}

#[test]
fn map_then_translate() {
    let mut pt = ActivePageTable::new();
    let mut alloc = allocator();
    let page = Page::from_address(0xDEAD_B000);
    assert_eq!(pt.map_to(page, Frame { number: 0x42 }, rw(), &mut alloc), Ok(()));
    assert_eq!(pt.translate(0xDEAD_B123), Some(0x42_123));
    assert_eq!(pt.translate(0xDEAD_B000), Some(0x42_000));
    assert_eq!(pt.translate(0xDEAD_BFFF), Some(0x42_FFF));
    assert_eq!(pt.translate(0xDEAD_C000), None);
    assert_eq!(pt.translate_page(page), Some(Frame { number: 0x42 }));
}

#[test]
fn mapping_uses_three_new_tables() {
    let mut pt = ActivePageTable::new();
    let mut alloc = allocator();
    pt.map_to(Page::from_address(0x4000_0000), Frame { number: 1 }, rw(), &mut alloc).unwrap();
    assert_eq!(alloc.allocate_frame(), Some(Frame { number: 0x103 }));
    pt.map_to(Page::from_address(0x4000_1000), Frame { number: 2 }, rw(), &mut alloc).unwrap();
    assert_eq!(alloc.allocate_frame(), Some(Frame { number: 0x104 }));
    assert_eq!(pt.translate(0x4000_1008), Some(0x2008));
    assert_eq!(pt.translate(0x4000_0008), Some(0x1008));
}

#[test]
fn high_half_addresses_map() {
    let mut pt = ActivePageTable::new();
    let mut alloc = allocator();
    let page = Page::from_address(0xFFFF_FFFF_FFFF_F000);
    pt.map_to(page, Frame { number: 9 }, rw(), &mut alloc).unwrap();
    assert_eq!(pt.translate(0xFFFF_FFFF_FFFF_F010), Some(0x9010));
    assert_eq!(pt.translate(0x0000_7FFF_FFFF_F010), None);
}

#[test]
fn non_canonical_address_translates_to_nothing() {
    let pt = ActivePageTable::new();
    assert_eq!(pt.translate(0x0000_8000_0000_0000), None);
    assert_eq!(pt.translate(0x1000), None);
}

#[test]
fn double_map_is_excluded() {
    let mut pt = ActivePageTable::new();
    let mut alloc = allocator();
    let page = Page::from_address(0x20_0000);
    assert!(pt.may_map(page));
    assert_eq!(pt.map_to(page, Frame { number: 5 }, rw(), &mut alloc), Ok(()));
    assert!(!pt.may_map(page));
    assert_eq!(pt.translate(0x20_0000), Some(0x5000));
    assert!(pt.may_map(Page::from_address(0x20_1000)));
}

#[test]
fn unmap_clears_translation() {
    let mut pt = ActivePageTable::new();
    let mut alloc = allocator();
    let page = Page::from_address(0x7000_0000);
    assert_eq!(pt.level1_entry(page), None);
    pt.map_to(page, Frame { number: 0x33 }, rw(), &mut alloc).unwrap();
    assert_eq!(pt.level1_entry(page), Some(0x33_000 | PRESENT | WRITABLE));
    assert_eq!(pt.unmap(page, &mut alloc), Err(ab_os_bel::frame_alloc::AllocError::Unsupported));
    assert_eq!(pt.translate(0x7000_0000), None);
    assert_eq!(pt.level1_entry(page), Some(0));
    assert!(pt.may_map(page));
    assert_eq!(pt.map_to(page, Frame { number: 0x34 }, rw(), &mut alloc), Ok(()));
    assert_eq!(pt.translate(0x7000_0004), Some(0x34_004));
}

#[test]
fn unmap_entry_returns_the_frame() {
    let mut pt = ActivePageTable::new();
    let mut alloc = allocator();
    let page = Page::from_address(0x5000);
    pt.map_to(page, Frame { number: 0x77 }, rw(), &mut alloc).unwrap();
    assert_eq!(pt.unmap_entry(page), Frame { number: 0x77 });
    assert_eq!(pt.translate(0x5000), None);
}

#[test]
fn link_new_table_uses_the_given_frame() {
    let mut parent: Table<Level2> = Table::new();
    let mut children: HashMap<usize, Table<Level1>> = HashMap::new();
    assert_eq!(
        parent.link_new_table(3, &mut children, None),
        Err(MapToError::FrameAllocationFailed)
    );
    assert_eq!(
        parent.link_new_table(3, &mut children, Some(Frame { number: 1 << 40 })),
        Err(MapToError::UnusableFrame)
    );
    assert!(parent.entry(3).is_unused());
    assert_eq!(parent.link_new_table(3, &mut children, Some(Frame { number: 0x42 })), Ok(0x42));
    assert_eq!(parent.entry(3).pointed_frame(), Some(Frame { number: 0x42 }));
    assert!(children[&0x42].entry(3).is_unused());
    let mut other: Table<Level2> = Table::new();
    assert_eq!(
        other.link_new_table(0, &mut children, Some(Frame { number: 0x42 })),
        Err(MapToError::UnusableFrame)
    );
}

#[test]
fn map_allocated_refuses_missing_frame() {
    let mut pt = ActivePageTable::new();
    let mut alloc = allocator();
    let page = Page::from_address(0x8000);
    assert_eq!(pt.map_allocated(page, None, rw(), &mut alloc), Err(MapToError::FrameAllocationFailed));
    assert_eq!(pt.level1_entry(page), None);
    assert_eq!(pt.map_allocated(page, Some(Frame { number: 0x9 }), rw(), &mut alloc), Ok(Frame { number: 0x9 }));
    assert_eq!(pt.translate(0x8010), Some(0x9010));
}

#[test]
fn identity_map_maps_frame_to_itself() {
    let mut pt = ActivePageTable::new();
    let mut alloc = allocator();
    pt.identity_map(Frame { number: 0xB8 }, rw(), &mut alloc).unwrap();
    assert_eq!(pt.translate(0xB8_123), Some(0xB8_123));
}

#[test]
fn map_draws_frame_from_allocator() {
    let mut pt = ActivePageTable::new();
    let mut alloc = allocator();
    let f = pt.map(Page::from_address(0x1_0000_0000), rw(), &mut alloc).unwrap();
    assert_eq!(f, Frame { number: 0x100 });
    assert_eq!(pt.translate(0x1_0000_0010), Some(0x100_010));
}

#[test]
fn mapping_fails_without_frames_for_tables() {
    let mut pt = ActivePageTable::new();
    let mut alloc = AreaFrameAllocator::new(FAR, FAR, FAR, FAR, vec![MemoryRegion {
        start_address: 0x10_0000,
        length: 0x2000,
        kind: MemoryRegionKind::Available,
    }]);
    let page = Page::from_address(0x30_0000);
    assert_eq!(
        pt.map_to(page, Frame { number: 1 }, rw(), &mut alloc),
        Err(MapToError::FrameAllocationFailed)
    );
    assert_eq!(pt.translate(0x30_0000), None);
}

#[test]
fn unmap_leaves_other_pages_mapped() {
    let mut pt = ActivePageTable::new();
    let mut alloc = allocator();
    let a = Page::from_address(0x6000_0000);
    let b = Page::from_address(0x6000_1000);
    pt.map_to(a, Frame { number: 0x10 }, rw(), &mut alloc).unwrap();
    pt.map_to(b, Frame { number: 0x11 }, rw(), &mut alloc).unwrap();
    let _ = pt.unmap(a, &mut alloc);
    assert_eq!(pt.translate(0x6000_0000), None);
    assert_eq!(pt.translate(0x6000_1abc), Some(0x11_abc));
}
