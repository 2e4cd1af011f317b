use kernel::memory::{
    BootInfoFrameAllocator, FrameRange, MemoryRegion, MemoryRegionKind, SmartFrameAllocator,
    FRAME_SIZE,
};

fn region(start: u64, end: u64, kind: MemoryRegionKind) -> MemoryRegion {
    MemoryRegion { start, end, kind }
}

fn map() -> Vec<MemoryRegion> {
    vec![
        region(0x0000, 0x1000, MemoryRegionKind::Bootloader),
        region(0x1000, 0x3000, MemoryRegionKind::Usable),
        region(0x3000, 0x3800, MemoryRegionKind::Usable),
        region(0x4000, 0x5000, MemoryRegionKind::UnknownUefi(7)),
        region(0x8000, 0x9000, MemoryRegionKind::Usable),
        region(0x9000, 0xA000, MemoryRegionKind::UnknownBios(2)),
    ]
}

#[test]
fn a_frame_is_4096_bytes() {
    assert_eq!(FRAME_SIZE, 4096);
}

#[test]
fn frames_come_from_the_usable_regions_in_order() {
    let mut allocator = BootInfoFrameAllocator::init(map());
    assert_eq!(allocator.allocate_frame(), Some(0x1000));
    assert_eq!(allocator.allocate_frame(), Some(0x2000));
    // the region of half a frame is passed over
    assert_eq!(allocator.allocate_frame(), Some(0x8000));
    assert_eq!(allocator.allocate_frame(), None);
    assert_eq!(allocator.allocate_frame(), None);
}

#[test]
fn an_empty_map_has_no_frame() {
    let mut allocator = BootInfoFrameAllocator::init(vec![]);
    assert_eq!(allocator.allocate_frame(), None);
}

#[test]
fn a_region_that_starts_off_a_frame_boundary_gives_the_frame_around_its_start() {
    let mut allocator =
        BootInfoFrameAllocator::init(vec![region(0x1800, 0x4000, MemoryRegionKind::Usable)]);
    assert_eq!(allocator.allocate_frame(), Some(0x1000));
    assert_eq!(allocator.allocate_frame(), Some(0x2000));
    assert_eq!(allocator.allocate_frame(), None);
}

#[test]
fn the_second_allocator_takes_over_what_is_left() {
    let mut first = BootInfoFrameAllocator::init(map());
    assert_eq!(first.allocate_frame(), Some(0x1000));
    let second = SmartFrameAllocator::init(first);
    let ranges: Vec<FrameRange> = (0..second.len()).map(|i| second.range(i)).collect();
    assert_eq!(
        ranges,
        vec![
            FrameRange { start: 0x4000, end: 0x5000 },
            FrameRange { start: 0x9000, end: 0xA000 },
            FrameRange { start: 0x2000, end: 0x3000 },
        ]
    );
}

#[test]
fn taking_over_a_fresh_allocator() {
    let second = SmartFrameAllocator::init(BootInfoFrameAllocator::init(map()));
    let ranges: Vec<FrameRange> = (0..second.len()).map(|i| second.range(i)).collect();
    assert_eq!(
        ranges,
        vec![
            FrameRange { start: 0x0000, end: 0x1000 },
            FrameRange { start: 0x4000, end: 0x5000 },
            FrameRange { start: 0x9000, end: 0xA000 },
        ]
    );
}
