use kernel::allocator::buddy_allocator::BuddyAllocator;
use kernel::allocator::bump::{align_up, heap_end, heap_stats, expand_heap_size, BumpAllocator};
use kernel::allocator::slab::{size_to_buddy_order, slab_index, slab_size, slab_stats, SlabAllocator, SlabCache, SlabError, SlabGlobalAlloc};

fn buddy() -> BuddyAllocator {
    let mut b = BuddyAllocator::new();
    b.add_region(0x100_0000, 0x200_0000);
    b
}

#[test]
fn buddy_order_for_sizes() {
    assert_eq!(size_to_buddy_order(0), 12);
    assert_eq!(size_to_buddy_order(1), 12);
    assert_eq!(size_to_buddy_order(4096), 12);
    assert_eq!(size_to_buddy_order(4097), 13);
    assert_eq!(size_to_buddy_order(8192), 13);
    assert_eq!(size_to_buddy_order(12288), 14);
    assert_eq!(size_to_buddy_order(1 << 20), 20);
}

#[test]
fn size_classes() {
    assert_eq!(slab_index(1), Some(0));
    assert_eq!(slab_index(8), Some(0));
    assert_eq!(slab_index(9), Some(1));
    assert_eq!(slab_index(100), Some(4));
    assert_eq!(slab_index(2048), Some(8));
    assert_eq!(slab_index(2049), None);
    assert_eq!(slab_size(0), 8);
    assert_eq!(slab_size(8), 2048);
}

#[test]
fn large_alloc_and_free_use_one_order() {
    let mut b = buddy();
    let mut s = SlabAllocator::new();
    let before = b.allocated();
    let a = s.allocate(3000, 8, &mut b).unwrap();
    assert_eq!(b.allocated() - before, 4096);
    s.deallocate(a, 3000, 8, &mut b).unwrap();
    assert_eq!(b.allocated(), before);
    let a = s.allocate(5000, 4096, &mut b).unwrap();
    assert_eq!(b.allocated() - before, 8192);
    s.deallocate(a, 5000, 4096, &mut b).unwrap();
    assert_eq!(b.allocated(), before);
}

#[test]
fn alignment_picks_the_class() {
    let mut b = buddy();
    let mut s = SlabAllocator::new();
    s.allocate(8, 64, &mut b).unwrap();
    let st = s.stats();
    assert_eq!(st[3], (64, 1, 64));
}

#[test]
fn no_leak_after_paired_cycles() {
    let mut b = buddy();
    let mut s = SlabAllocator::new();
    let sizes = [8usize, 24, 100, 700, 2048, 3000, 16, 512];
    for round in 0..20 {
        let mut held = Vec::new();
        for (k, sz) in sizes.iter().enumerate() {
            if (k + round) % 3 != 0 {
                held.push((s.allocate(*sz, 8, &mut b).unwrap(), *sz));
            }
        }
        for (a, sz) in held.into_iter().rev() {
            s.deallocate(a, sz, 8, &mut b).unwrap();
        }
    }
    for (_, used, _) in slab_stats(&s) {
        assert_eq!(used, 0);
    }
}

#[test]
fn cache_expands_by_a_frame_and_hands_out_its_first_object() {
    let mut b = buddy();
    let mut c = SlabCache::new();
    let first = c.allocate(64, &mut b).unwrap();
    assert_eq!(first, 0x100_0000);
    assert_eq!(c.stats(), (64, 1));
    assert_eq!(c.allocate(64, &mut b), Some(0x100_0040));
    assert_eq!(c.deallocate(first), Ok(()));
    assert_eq!(c.stats(), (64, 1));
}

#[test]
fn freeing_an_unused_class_is_refused() {
    let mut b = buddy();
    let mut s = SlabAllocator::new();
    assert_eq!(s.deallocate(0x100_0000, 32, 8, &mut b), Err(SlabError::NotAllocated));
}

#[test]
fn global_heap_round_trip() {
    let mut h = SlabGlobalAlloc::new(buddy());
    let a = h.allocate(40, 8).unwrap();
    assert_eq!(h.deallocate(a, 40, 8), Ok(()));
}

#[test]
fn align_up_values() {
    assert_eq!(align_up(0, 8), 0);
    assert_eq!(align_up(1, 8), 8);
    assert_eq!(align_up(8, 8), 8);
    assert_eq!(align_up(4097, 4096), 8192);
}

#[test]
fn bump_allocator() {
    let mut a = BumpAllocator::new();
    assert_eq!(a.allocate(8, 8), None);
    a.init(0x1000, 0x100);
    assert_eq!(a.allocate(3, 1), Some(0x1000));
    assert_eq!(a.allocate(8, 8), Some(0x1008));
    assert_eq!(heap_stats(&a), (0x10, 0x100));
    assert_eq!(a.allocate(0x100, 1), None);
    assert_eq!(heap_end(&a), 0x1100);
    expand_heap_size(&mut a, 0x1200);
    assert_eq!(a.allocate(0x100, 1), Some(0x1010));
}
