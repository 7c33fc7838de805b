use kernel::allocator::buddy_allocator::{BuddyAllocator, BuddyError, block_size, usable_range, MAX_ORDER, MIN_ORDER, NUM_ORDERS};

fn free_bytes(b: &BuddyAllocator) -> u64 {
    let counts = b.free_block_counts();
    let mut total = 0u64;
    for (i, c) in counts.iter().enumerate() {
        total += (*c as u64) << (i + MIN_ORDER);
    }
    total
}

#[test]
fn region_allocate_then_coalesce() {
    let mut b = BuddyAllocator::new();
    b.add_region(0x200_000, 0x4000_0000);
    assert_eq!(b.allocate(12), Some(0x200_000));
    assert_eq!(b.allocate(12), Some(0x201_000));
    assert_eq!(b.deallocate(0x200_000, 12), Ok(()));
    assert_eq!(b.deallocate(0x201_000, 12), Ok(()));
    // The pair merged into a block of order 13 at 0x200_000, which kept
    // merging with the buddies split off earlier: the whole first block is back.
    let order = b.free_order_of(0x200_000).unwrap();
    assert!(order >= 13);
    assert_eq!(order, 21);
    assert!(!b.is_free(12, 0x201_000));
    assert_eq!(b.allocated(), 0);
}

#[test]
fn coalescing_stops_at_order_plus_one_when_next_buddy_is_busy() {
    let mut b = BuddyAllocator::new();
    b.add_region(0x10_0000, 0x10_4000);
    let a0 = b.allocate(12).unwrap();
    let a1 = b.allocate(12).unwrap();
    let a2 = b.allocate(12).unwrap();
    assert_eq!((a0, a1, a2), (0x10_0000, 0x10_1000, 0x10_2000));
    b.deallocate(a0, 12).unwrap();
    b.deallocate(a1, 12).unwrap();
    assert!(b.is_free(13, 0x10_0000));
}

#[test]
fn allocations_are_aligned() {
    let mut b = BuddyAllocator::new();
    b.add_region(0x1000, 0x800_0000);
    for order in MIN_ORDER..=20 {
        let a = b.allocate(order).unwrap();
        assert_eq!(a % (1u64 << order), 0);
    }
}

#[test]
fn double_free_is_refused() {
    let mut b = BuddyAllocator::new();
    b.add_region(0x200_000, 0x400_000);
    let a = b.allocate(12).unwrap();
    let _other = b.allocate(12).unwrap();
    assert_eq!(b.deallocate(a, 12), Ok(()));
    assert_eq!(b.deallocate(a, 12), Err(BuddyError::DoubleFree));
}

#[test]
fn deallocate_errors() {
    let mut b = BuddyAllocator::new();
    b.add_region(0x200_000, 0x400_000);
    assert_eq!(b.deallocate(0x200_800, 12), Err(BuddyError::Misaligned));
    assert_eq!(b.deallocate(0xF_FFFF_FFFF_F000, 13), Err(BuddyError::Misaligned));
    assert_eq!(b.deallocate(0x10_0000_0000_0000, 12), Err(BuddyError::OutOfRange));
    assert_eq!(b.deallocate(0x1000, 12), Err(BuddyError::NotAllocated));
}

#[test]
fn conservation_of_bytes() {
    let mut b = BuddyAllocator::new();
    b.add_region(0x10_0000, 0x90_0000);
    b.add_region(0x100_0000, 0x100_5000);
    assert_eq!(b.total_memory(), 0x80_0000 + 0x5000);
    let mut held = Vec::new();
    for order in [12usize, 14, 13, 16, 12, 20] {
        if let Some(a) = b.allocate(order) {
            held.push((a, order));
        }
        assert_eq!(free_bytes(&b) + b.allocated(), b.total_memory());
    }
    for (a, o) in held {
        b.deallocate(a, o).unwrap();
        assert_eq!(free_bytes(&b) + b.allocated(), b.total_memory());
    }
    assert_eq!(b.allocated(), 0);
}

#[test]
fn region_tail_below_a_frame_is_left_out() {
    let mut b = BuddyAllocator::new();
    b.add_region(0x1000, 0x3800);
    assert_eq!(b.total_memory(), 0x2000);
    assert!(b.is_free(12, 0x1000));
    assert!(b.is_free(12, 0x2000));
}

#[test]
fn out_of_memory_gives_none() {
    let mut b = BuddyAllocator::new();
    assert_eq!(b.allocate(12), None);
    b.add_region(0x1000, 0x2000);
    assert_eq!(b.allocate(13), None);
    assert_eq!(b.allocate(12), Some(0x1000));
    assert_eq!(b.allocate(12), None);
}

#[test]
fn largest_block_is_order_28() {
    let mut b = BuddyAllocator::new();
    b.add_region(0, 0x2000_0000);
    assert_eq!(b.free_block_counts()[MAX_ORDER - MIN_ORDER], 2);
    assert_eq!(b.free_block_counts().len(), NUM_ORDERS);
    assert_eq!(block_size(28), 0x1000_0000);
}

#[test]
fn usable_ranges_are_rounded_to_frames() {
    assert_eq!(usable_range(0x1001, 0x9000), Some((0x2000, 0x9000)));
    assert_eq!(usable_range(0x1000, 0x1800), Some((0x1000, 0x1800)));
    assert_eq!(usable_range(0x1001, 0x1800), None);
    assert_eq!(usable_range(0, u64::MAX), Some((0, 0x10_0000_0000_0000)));
}
