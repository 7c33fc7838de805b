use kernel::allocator::buddy_allocator::BuddyAllocator;
use kernel::memory::address_space::{is_user_pml4_entry, kernel_entries_to_copy, map_demand_page, pml4_index, AddressSpace};
use kernel::memory::demand_paging::{is_demand_pageable, map_failure_action, page_fault_action, page_of, FaultAction, FaultReason};
use kernel::memory::paging::BuddyFrameAllocator;
use kernel::memory::vma::{clear_vmas, dump_vmas, find_vma, register_vma, Vma, VmaError, VmaKind, VmaList, VmaTable};

fn stack_vma(start: u64) -> Vma {
    Vma { start, size_pages: 16, flags: 0x7, kind: VmaKind::Anonymous }
}

fn buddy() -> BuddyAllocator {
    let mut b = BuddyAllocator::new();
    b.add_region(0x100_0000, 0x200_0000);
    b
}

#[test]
fn vma_bounds() {
    let v = stack_vma(0x7100_0000_0000);
    assert_eq!(v.end(), 0x7100_0001_0000);
    assert!(v.contains(0x7100_0000_0000));
    assert!(v.contains(0x7100_0000_FFFF));
    assert!(!v.contains(0x7100_0001_0000));
    assert!(!v.contains(0x70FF_FFFF_FFFF));
}

#[test]
fn vma_list_add_find_clear() {
    let mut l = VmaList::new();
    assert_eq!(l.add(stack_vma(0x7100_0000_0000)), Ok(()));
    assert_eq!(l.add(Vma { start: 0x40_0000, size_pages: 1, flags: 0x5, kind: VmaKind::Code }), Ok(()));
    assert_eq!(l.add(stack_vma(0x7100_0000_8000)), Err(VmaError::Overlap));
    assert_eq!(l.add(stack_vma(0x7100_0000_0010)), Err(VmaError::Invalid));
    assert_eq!(l.add(stack_vma(0x7FFF_FFFF_F000)), Err(VmaError::Invalid));
    assert_eq!(l.find(0x40_0123).unwrap().kind, VmaKind::Code);
    assert_eq!(l.find(0x7100_0000_1000).unwrap().start, 0x7100_0000_0000);
    assert_eq!(l.find(0x1000), None);
    assert_eq!(l.iter().len(), 2);
    l.clear();
    assert_eq!(l.iter().len(), 0);
}

#[test]
fn vma_list_full() {
    let mut l = VmaList::new();
    for i in 0..16u64 {
        assert_eq!(l.add(stack_vma(0x7100_0000_0000 + i * 0x10000)), Ok(()));
    }
    assert_eq!(l.add(stack_vma(0x7200_0000_0000)), Err(VmaError::Full));
}

#[test]
fn vma_registry() {
    let mut t = VmaTable::new();
    assert_eq!(register_vma(&mut t, 3, stack_vma(0x7100_0000_0000)), Ok(()));
    assert_eq!(register_vma(&mut t, 64, stack_vma(0x7100_0000_0000)), Err(VmaError::BadPid));
    assert!(find_vma(&t, 3, 0x7100_0000_0008).is_some());
    assert!(find_vma(&t, 4, 0x7100_0000_0008).is_none());
    assert_eq!(dump_vmas(&t, 3).len(), 1);
    clear_vmas(&mut t, 3);
    assert!(find_vma(&t, 3, 0x7100_0000_0008).is_none());
}

#[test]
fn fault_classification() {
    assert_eq!(is_demand_pageable(0b100), Ok(()));
    assert_eq!(is_demand_pageable(0b110), Ok(()));
    assert_eq!(is_demand_pageable(0b1100), Err(FaultReason::ReservedBit));
    assert_eq!(is_demand_pageable(0b010), Err(FaultReason::KernelMode));
    assert_eq!(is_demand_pageable(0b101), Err(FaultReason::ProtectionViolation));
}

#[test]
fn user_fault_outside_any_area_kills() {
    assert_eq!(page_fault_action(0b110, 0xdead_b000, None), FaultAction::Kill(FaultReason::NoVma(0xdead_b000)));
    assert_eq!(page_fault_action(0b101, 0x1000, None), FaultAction::Kill(FaultReason::ProtectionViolation));
    let v = stack_vma(0x7100_0000_0000);
    assert_eq!(page_fault_action(0b110, 0x7100_0000_1000, Some(v)), FaultAction::DemandPage(v));
}

#[test]
fn kernel_fault_panics() {
    assert_eq!(page_fault_action(0b010, 0x1234, None), FaultAction::Panic(FaultReason::KernelMode));
    assert_eq!(page_fault_action(0b000, 0x1234, Some(stack_vma(0x7100_0000_0000))), FaultAction::Panic(FaultReason::KernelMode));
    assert_eq!(map_failure_action(0, FaultReason::OutOfMemory), FaultAction::Panic(FaultReason::OutOfMemory));
    assert_eq!(map_failure_action(4, FaultReason::OutOfMemory), FaultAction::Kill(FaultReason::OutOfMemory));
}

#[test]
fn page_of_addresses() {
    assert_eq!(page_of(0x7100_0000_1234), 0x7100_0000_1000);
    assert_eq!(page_of(0xFFF), 0);
}

#[test]
fn anonymous_stack_page_is_mapped_on_demand() {
    let mut b = buddy();
    let mut space = AddressSpace::new_user(&mut b).unwrap();
    let v = stack_vma(0x7100_0000_0000);
    space.add_vma(v).unwrap();
    let fault = 0x7100_0000_1000u64;
    let found = space.find_vma(fault).unwrap();
    let m = map_demand_page(fault, &found, &mut space, &mut b).unwrap();
    assert_eq!(m.page, 0x7100_0000_1000);
    assert_eq!(m.flags, 0x7);
    assert_eq!(space.mapped_frame(0x7100_0000_1000), Some(m.frame));
    assert_eq!(space.mapped_count_in(0x7100_0000_0000, 0x7100_0001_0000), 1);
    assert_eq!(map_demand_page(fault, &found, &mut space, &mut b), Err(FaultReason::AlreadyMapped));
}

#[test]
fn code_pages_are_not_demand_paged() {
    let mut b = buddy();
    let mut space = AddressSpace::new_user(&mut b).unwrap();
    let code = Vma { start: 0x40_0000, size_pages: 1, flags: 0x5, kind: VmaKind::Code };
    space.add_vma(code).unwrap();
    assert_eq!(map_demand_page(0x40_0010, &code, &mut space, &mut b), Err(FaultReason::CodePageNotPresent));
    assert_eq!(space.map_user_page(0x50_0000, 0x5, &mut b), Err(FaultReason::NoVma(0x50_0000)));
}

#[test]
fn two_processes_get_distinct_frames_for_one_stack_address() {
    let mut b = buddy();
    let mut a = AddressSpace::new_user(&mut b).unwrap();
    let mut c = AddressSpace::new_user(&mut b).unwrap();
    assert_ne!(a.root_frame(), c.root_frame());
    a.add_vma(stack_vma(0x7100_0000_0000)).unwrap();
    c.add_vma(stack_vma(0x7100_0000_0000)).unwrap();
    let va = 0x7100_0000_f000u64;
    let ma = a.map_user_page(va, 0x7, &mut b).unwrap();
    let mc = c.map_user_page(va, 0x7, &mut b).unwrap();
    assert_eq!(a.mapped_frame(va), Some(ma.frame));
    assert_eq!(c.mapped_frame(va), Some(mc.frame));
    assert_ne!(ma.frame, mc.frame);
}

#[test]
fn out_of_memory_when_buddy_is_empty() {
    let mut b = BuddyAllocator::new();
    assert!(AddressSpace::new_user(&mut b).is_err());
    let mut space = AddressSpace::kernel(0x5000);
    space.add_vma(stack_vma(0x7100_0000_0000)).unwrap();
    assert_eq!(space.map_user_page(0x7100_0000_0000, 0x7, &mut b), Err(FaultReason::OutOfMemory));
    assert_eq!(BuddyFrameAllocator.allocate_frame(&mut b), None);
}

#[test]
fn activation_skips_unchanged_root() {
    let space = AddressSpace::kernel(0x5000);
    assert!(!space.needs_activation(0x5000));
    assert!(space.needs_activation(0x6000));
    assert_eq!(space.pml4_phys(), 0x5000);
}

#[test]
fn root_entries_of_user_ranges_are_not_shared() {
    assert_eq!(pml4_index(0x40_0000), 0);
    assert_eq!(pml4_index(0x7100_0000_0000), 226);
    assert!(is_user_pml4_entry(0));
    assert!(is_user_pml4_entry(226));
    assert!(!is_user_pml4_entry(2));
    let mut present = vec![false; 512];
    for i in [0usize, 2, 5, 226, 511] {
        present[i] = true;
    }
    assert_eq!(kernel_entries_to_copy(&present), vec![2, 5, 511]);
}
