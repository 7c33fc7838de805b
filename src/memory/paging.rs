use vstd::prelude::*;
use crate::allocator::buddy_allocator::{BuddyAllocator, MIN_ORDER, aligned, MAX_PHYS_ADDR, took_frame};
use vstd::arithmetic::power2::pow2;

verus! {

/// Why a page could not be mapped.
#[derive(Clone, Copy, Debug, PartialEq, Eq, Structural)]
pub enum MapError {
    FrameAllocationFailed,
    ParentEntryHugePage,
    PageAlreadyMapped,
}

/// Why a page could not be unmapped.
#[derive(Clone, Copy, Debug, PartialEq, Eq, Structural)]
pub enum UnmapError {
    ParentEntryHugePage,
    PageNotMapped,
    InvalidFrameAddress,
}

/// Hands out 4 KiB frames from the buddy allocator (order 12).
pub struct BuddyFrameAllocator;

impl BuddyFrameAllocator {
    /// One frame, or `None` when the buddy is exhausted.
    pub fn allocate_frame(&mut self, buddy: &mut BuddyAllocator) -> (r: Option<u64>)
        requires
            old(buddy).wf(),
        ensures
            final(buddy).wf(),
            r.is_none() <==> old(buddy).free_from(MIN_ORDER as nat) == 0,
            r.is_some() ==> took_frame(*old(buddy), *final(buddy), r.unwrap()),
            r.is_some() ==> aligned(r.unwrap() as int, 12) && r.unwrap() + pow2(12) <= MAX_PHYS_ADDR
                && final(buddy).allocated_bytes() == old(buddy).allocated_bytes() + pow2(12),
    {
        buddy.allocate(12)
    }
}

} // verus!
