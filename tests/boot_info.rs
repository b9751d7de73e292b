use ab_os_bel::boot_info::{
    frame_allocator_for, init_frame_alloc, kernel_bounds, BootInfo, BootInfoCell, BootInfoError,
    ElfSection,
};
use ab_os_bel::frame_alloc::{FrameAllocator, FrameAllocatorCell, MemoryRegion, MemoryRegionKind};

fn boot_info(with_map: bool, with_sections: bool) -> BootInfo {
    BootInfo {
        start_address: 0x9000,
        end_address: 0x9800,
        memory_regions: if with_map {
            Some(vec![MemoryRegion {
                start_address: 0,
                length: 0x20_0000,
                kind: MemoryRegionKind::Available,
            }])
        } else {
            None
        },
        elf_sections: if with_sections {
            Some(vec![
                ElfSection { start_address: 0x10_2000, end_address: 0x10_4000 },
                ElfSection { start_address: 0x10_0000, end_address: 0x10_1800 },
            ])
        } else {
            None
        },
        framebuffer: None,
    }
}

#[test]
fn kernel_bounds_span_all_sections() {
    let sections = vec![
        ElfSection { start_address: 0x20_0000, end_address: 0x20_5000 },
        ElfSection { start_address: 0x10_0000, end_address: 0x10_0100 },
        ElfSection { start_address: 0x30_0000, end_address: 0x30_0010 },
    ];
    assert_eq!(kernel_bounds(&sections), (0x10_0000, 0x30_0010));
    assert_eq!(kernel_bounds(&vec![]), (usize::MAX, 0));
}

#[test]
fn allocator_from_boot_info_skips_kernel_and_boot_info() {
    let mut a = frame_allocator_for(&boot_info(true, true)).unwrap();
    let mut frames = Vec::new();
    while let Some(f) = a.allocate_frame() {
        frames.push(f.number);
    }
    assert_eq!(frames.len(), 0x200 - 1 - 5);
    assert!(!frames.contains(&9));
    assert!((0x100..=0x104).all(|f| !frames.contains(&f)));
    assert_eq!(frames[..10], [0, 1, 2, 3, 4, 5, 6, 7, 8, 10]);
}

#[test]
fn missing_parts_are_reported() {
    assert_eq!(frame_allocator_for(&boot_info(false, true)).err(), Some(BootInfoError::MissingMemoryMap));
    assert_eq!(
        frame_allocator_for(&boot_info(true, false)).err(),
        Some(BootInfoError::MissingElfSections)
    );
    let mut cell = FrameAllocatorCell::new();
    assert_eq!(init_frame_alloc(&mut cell, &boot_info(false, true)), Err(BootInfoError::MissingMemoryMap));
    assert!(!cell.is_set());
}

#[test]
fn boot_info_is_stored_once() {
    let mut cell = BootInfoCell::new();
    assert!(cell.get().is_none());
    assert!(cell.call_once(boot_info(true, true)));
    assert!(!cell.call_once(boot_info(false, false)));
    let stored = cell.get().unwrap();
    assert!(stored.memory_regions.is_some());
    assert!(stored.elf_sections.is_some());
}

#[test]
fn frame_allocator_is_set_once() {
    let mut cell = FrameAllocatorCell::new();
    assert_eq!(cell.allocate_frame(), None);
    assert_eq!(init_frame_alloc(&mut cell, &boot_info(true, true)), Ok(()));
    assert_eq!(cell.allocate_frame().map(|f| f.number), Some(0));
    assert_eq!(init_frame_alloc(&mut cell, &boot_info(true, true)), Err(BootInfoError::AlreadyInitialised));
    assert_eq!(cell.allocate_frame().map(|f| f.number), Some(1));
}
