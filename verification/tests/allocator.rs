use kernel::allocator::{
    align_up, block_size, list_index, AllocAction, DeallocAction, FixedSizeBlockAllocator,
    BLOCK_COUNT, KEPT_BLOCKS,
};

#[test]
fn addresses_are_aligned_up() {
    assert_eq!(align_up(0, 8), 0);
    assert_eq!(align_up(1, 8), 8);
    assert_eq!(align_up(8, 8), 8);
    assert_eq!(align_up(9, 8), 16);
    assert_eq!(align_up(0x1001, 0x1000), 0x2000);
    assert_eq!(align_up(77, 1), 77);
}

#[test]
fn block_sizes_ascend() {
    let sizes: Vec<usize> = (0..BLOCK_COUNT).map(block_size).collect();
    assert_eq!(sizes, vec![8, 16, 32, 64, 128, 512, 1024, 2048]);
}

#[test]
fn a_request_is_served_by_the_first_block_size_that_covers_it() {
    assert_eq!(list_index(0, 1), Some(0));
    assert_eq!(list_index(8, 8), Some(0));
    assert_eq!(list_index(9, 1), Some(1));
    assert_eq!(list_index(1, 16), Some(1));
    assert_eq!(list_index(128, 8), Some(4));
    assert_eq!(list_index(129, 8), Some(5));
    assert_eq!(list_index(256, 256), Some(5));
    assert_eq!(list_index(2048, 8), Some(7));
    assert_eq!(list_index(2049, 8), None);
    assert_eq!(list_index(8, 4096), None);
}

#[test]
fn a_request_without_a_free_block_goes_to_the_fallback_allocator() {
    let mut allocator = FixedSizeBlockAllocator::new();
    assert_eq!(allocator.allocate(24, 8), AllocAction::FallbackBlock(32));
    assert_eq!(allocator.allocate(3000, 8), AllocAction::Fallback);
    assert_eq!(allocator.length(2), 0);
}

#[test]
fn a_returned_block_is_reused_last_returned_first() {
    let mut allocator = FixedSizeBlockAllocator::new();
    assert_eq!(allocator.deallocate(0x1000, 24, 8), DeallocAction::Kept);
    assert_eq!(allocator.deallocate(0x2000, 32, 8), DeallocAction::Kept);
    assert_eq!(allocator.deallocate(0x3000, 64, 8), DeallocAction::Kept);
    assert_eq!(allocator.length(2), 2);
    assert_eq!(allocator.length(3), 1);
    assert_eq!(allocator.allocate(20, 4), AllocAction::Reuse(0x2000));
    assert_eq!(allocator.allocate(20, 4), AllocAction::Reuse(0x1000));
    assert_eq!(allocator.allocate(20, 4), AllocAction::FallbackBlock(32));
    assert_eq!(allocator.allocate(64, 4), AllocAction::Reuse(0x3000));
}

#[test]
fn a_full_list_hands_returned_blocks_to_the_fallback_allocator() {
    let mut allocator = FixedSizeBlockAllocator::new();
    for i in 0..=KEPT_BLOCKS {
        assert_eq!(allocator.deallocate(0x1000 + 8 * i, 8, 8), DeallocAction::Kept);
    }
    assert_eq!(allocator.length(0), KEPT_BLOCKS + 1);
    assert_eq!(allocator.deallocate(0x9000, 8, 8), DeallocAction::Fallback);
    assert_eq!(allocator.length(0), KEPT_BLOCKS + 1);
    assert_eq!(allocator.deallocate(0x9000, 4096, 8), DeallocAction::Fallback);
}
