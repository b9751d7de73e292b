use ab_os_bel::frame_alloc::{
    AllocError, AreaFrameAllocator, Frame, FrameAllocator, MemoryRegion, MemoryRegionKind,
    PAGE_SIZE,
};

fn available(start_frame: u64, frames: u64) -> MemoryRegion {
    MemoryRegion {
        start_address: start_frame * 4096,
        length: frames * 4096,
        kind: MemoryRegionKind::Available,
    }
}

fn drain(a: &mut AreaFrameAllocator) -> Vec<usize> {
    let mut out = Vec::new();
    while let Some(f) = a.allocate_frame() {
        out.push(f.number);
    }
    out
}

// Exclusions placed far above every region in these tests.
const FAR: usize = 0x1000_0000;

#[test]
fn frame_from_address_and_back() {
    assert_eq!(Frame::from_address(0).number, 0);
    assert_eq!(Frame::from_address(4095).number, 0);
    assert_eq!(Frame::from_address(4096).number, 1);
    assert_eq!(Frame::from_address(0x12_3456).number, 0x123);
    assert_eq!(Frame { number: 0x123 }.start_address(), 0x12_3000);
    assert_eq!(PAGE_SIZE, 4096);
}

#[test]
fn kernel_exclusion_is_skipped() {
    let mut a = AreaFrameAllocator::new(3 * 4096, 5 * 4096, FAR, FAR, vec![available(0, 10)]);
    assert_eq!(drain(&mut a), vec![0, 1, 2, 6, 7, 8, 9]);
}

#[test]
fn boot_info_exclusion_is_skipped() {
    let mut a = AreaFrameAllocator::new(FAR, FAR, 4 * 4096 + 12, 6 * 4096 + 100, vec![available(0, 8)]);
    assert_eq!(drain(&mut a), vec![0, 1, 2, 3, 7]);
}

#[test]
fn lower_region_is_exhausted_first() {
    let mut a = AreaFrameAllocator::new(FAR, FAR, FAR, FAR, vec![available(100, 10), available(0, 10)]);
    let frames = drain(&mut a);
    let expected: Vec<usize> = (0..10).chain(100..110).collect();
    assert_eq!(frames, expected);
}

#[test]
fn frames_strictly_increase_and_avoid_exclusions() {
    let regions = vec![available(50, 20), available(0, 16), available(20, 5)];
    let mut a = AreaFrameAllocator::new(8 * 4096, 12 * 4096, 55 * 4096, 57 * 4096, regions);
    let frames = drain(&mut a);
    assert!(frames.windows(2).all(|w| w[0] < w[1]));
    assert!(frames.iter().all(|&f| !(8..=12).contains(&f) && !(55..=57).contains(&f)));
    assert_eq!(frames.len(), 16 - 5 + 5 + 20 - 3);
}

#[test]
fn exhaustion_after_all_available_frames() {
    let regions = vec![available(0, 7), available(32, 9), available(16, 3)];
    let total_bytes: u64 = regions.iter().map(|r| r.length).sum();
    let mut a = AreaFrameAllocator::new(FAR, FAR, FAR, FAR, regions);
    let mut count: u64 = 0;
    while a.allocate_frame().is_some() {
        count += 1;
    }
    assert_eq!(count, total_bytes / 4096);
    assert_eq!(a.allocate_frame(), None);
    assert_eq!(a.allocate_frame(), None);
}

#[test]
fn reserved_and_empty_regions_are_ignored() {
    let regions = vec![
        MemoryRegion { start_address: 0, length: 4 * 4096, kind: MemoryRegionKind::Reserved },
        MemoryRegion { start_address: 8 * 4096, length: 0, kind: MemoryRegionKind::Available },
        available(10, 2),
    ];
    let mut a = AreaFrameAllocator::new(FAR, FAR, FAR, FAR, regions);
    assert_eq!(drain(&mut a), vec![10, 11]);
}

#[test]
fn partial_frames_at_region_edges_count() {
    let regions = vec![MemoryRegion {
        start_address: 4096 + 100,
        length: 2 * 4096,
        kind: MemoryRegionKind::Available,
    }];
    let mut a = AreaFrameAllocator::new(FAR, FAR, FAR, FAR, regions);
    assert_eq!(drain(&mut a), vec![1, 2, 3]);
}

#[test]
fn overlapping_regions_give_each_frame_once() {
    let regions = vec![available(0, 10), available(5, 10)];
    let mut a = AreaFrameAllocator::new(FAR, FAR, FAR, FAR, regions);
    let expected: Vec<usize> = (0..15).collect();
    assert_eq!(drain(&mut a), expected);
}

#[test]
fn no_regions_means_no_frames() {
    let mut a = AreaFrameAllocator::new(FAR, FAR, FAR, FAR, vec![]);
    assert_eq!(a.allocate_frame(), None);
}

#[test]
fn exclusion_covering_whole_region_moves_to_next_region() {
    let regions = vec![available(0, 4), available(10, 2)];
    let mut a = AreaFrameAllocator::new(0, 3 * 4096, FAR, FAR, regions);
    assert_eq!(drain(&mut a), vec![10, 11]);
}

#[test]
fn deallocation_is_refused() {
    let mut a = AreaFrameAllocator::new(FAR, FAR, FAR, FAR, vec![available(0, 2)]);
    let f = FrameAllocator::allocate_frame(&mut a).unwrap();
    assert_eq!(f, Frame { number: 0 });
    assert_eq!(a.deallocate_frame(f), Err(AllocError::Unsupported));
    assert_eq!(a.allocate_frame(), Some(Frame { number: 1 }));
}

#[test]
fn exhausted_allocator_stays_exhausted() {
    let mut a = AreaFrameAllocator::new(0, 4096, FAR, FAR, vec![available(0, 2)]);
    assert_eq!(a.allocate_frame(), None);
    assert_eq!(a.allocate_frame(), None);
}

#[test]
fn cursor_starts_at_lowest_region() {
    let mut a = AreaFrameAllocator::new(FAR, FAR, FAR, FAR, vec![available(40, 2), available(30, 2)]);
    assert_eq!(a.allocate_frame(), Some(Frame { number: 30 }));
}
