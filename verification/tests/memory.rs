use kernel::memory::{
    align_down, drop_empty, join_ranges, sort_by_start, FrameRange, SmartFrameAllocator,
};

fn r(start: u64, end: u64) -> FrameRange {
    FrameRange { start, end }
}

fn ranges_of(allocator: &SmartFrameAllocator) -> Vec<FrameRange> {
    (0..allocator.len()).map(|i| allocator.range(i)).collect()
}

#[test]
fn ranges_that_touch_are_joined() {
    assert_eq!(join_ranges(r(0, 5), r(5, 9)), Ok(r(0, 9)));
    assert_eq!(join_ranges(r(5, 9), r(0, 5)), Ok(r(0, 9)));
    assert_eq!(join_ranges(r(0, 5), r(6, 9)), Err((r(0, 5), r(6, 9))));
    assert_eq!(join_ranges(r(0, 5), r(4, 9)), Err((r(0, 5), r(4, 9))));
}

#[test]
fn sorting_is_by_start_and_keeps_equal_starts_in_order() {
    let sorted = sort_by_start(&vec![r(30, 40), r(10, 20), r(30, 35), r(0, 1), r(10, 11)]);
    assert_eq!(sorted, vec![r(0, 1), r(10, 20), r(10, 11), r(30, 40), r(30, 35)]);
    assert_eq!(sort_by_start(&vec![]), vec![]);
}

#[test]
fn empty_ranges_are_dropped() {
    assert_eq!(drop_empty(&vec![r(1, 1), r(1, 2), r(5, 5), r(7, 3)]), vec![r(1, 2), r(7, 3)]);
}

#[test]
fn addresses_are_aligned_down() {
    assert_eq!(align_down(0x1234, 0x1000), 0x1000);
    assert_eq!(align_down(0x2000, 0x1000), 0x2000);
    assert_eq!(align_down(0xFFF, 0x1000), 0);
    assert_eq!(align_down(u64::MAX, 0x20_0000), u64::MAX - 0x1F_FFFF);
}

#[test]
fn tidying_sorts_joins_and_drops_empty_ranges() {
    let mut allocator = SmartFrameAllocator::new(vec![
        r(0x5000, 0x6000),
        r(0x1000, 0x2000),
        r(0x9000, 0x9000),
        r(0x2000, 0x3000),
        r(0x3000, 0x5000),
        r(0x8000, 0x8800),
    ]);
    allocator.coallesce();
    assert_eq!(ranges_of(&allocator), vec![r(0x1000, 0x6000), r(0x8000, 0x8800)]);
}

#[test]
fn only_neighbours_in_order_of_start_are_joined() {
    // the empty range in between keeps the two that touch apart
    let mut allocator = SmartFrameAllocator::new(vec![r(0, 10), r(10, 20), r(5, 5)]);
    allocator.coallesce();
    assert_eq!(ranges_of(&allocator), vec![r(0, 10), r(10, 20)]);

    let mut allocator = SmartFrameAllocator::new(vec![]);
    allocator.coallesce();
    assert_eq!(allocator.len(), 0);
}

#[test]
fn frames_are_cut_from_the_first_range_with_room() {
    let mut allocator = SmartFrameAllocator::new(vec![r(0x1000, 0x1800), r(0x4000, 0x6000)]);
    assert_eq!(allocator.allocate_frame(0x1000), Some(0x4000));
    assert_eq!(ranges_of(&allocator), vec![r(0x1000, 0x1800), r(0x5000, 0x6000)]);
    assert_eq!(allocator.allocate_frame(0x1000), Some(0x5000));
    assert_eq!(ranges_of(&allocator), vec![r(0x1000, 0x1800), r(0x6000, 0x6000)]);
    assert_eq!(allocator.allocate_frame(0x1000), None);
    assert_eq!(ranges_of(&allocator), vec![r(0x1000, 0x1800), r(0x6000, 0x6000)]);
    assert_eq!(allocator.allocate_frame(0x800), Some(0x1000));
}

#[test]
fn the_frame_is_the_one_that_holds_the_old_start() {
    let mut allocator = SmartFrameAllocator::new(vec![r(0x1234, 0x4000)]);
    assert_eq!(allocator.allocate_frame(0x1000), Some(0x1000));
    assert_eq!(ranges_of(&allocator), vec![r(0x2234, 0x4000)]);
}

#[test]
fn a_range_near_the_end_of_the_address_space_has_no_room() {
    let mut allocator = SmartFrameAllocator::new(vec![r(u64::MAX - 10, u64::MAX)]);
    assert_eq!(allocator.allocate_frame(0x1000), None);
    assert_eq!(ranges_of(&allocator), vec![r(u64::MAX - 10, u64::MAX)]);
}

#[test]
fn a_returned_frame_rejoins_its_neighbours() {
    let mut allocator = SmartFrameAllocator::new(vec![r(0x1000, 0x3000)]);
    let frame = allocator.allocate_frame(0x1000).unwrap();
    assert_eq!(frame, 0x1000);
    assert_eq!(ranges_of(&allocator), vec![r(0x2000, 0x3000)]);
    allocator.deallocate_frame(frame, 0x1000);
    assert_eq!(ranges_of(&allocator), vec![r(0x1000, 0x3000)]);
    allocator.deallocate_frame(0x8000, 0x1000);
    assert_eq!(ranges_of(&allocator), vec![r(0x1000, 0x3000), r(0x8000, 0x9000)]);
}
