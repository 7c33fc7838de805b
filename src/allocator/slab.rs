use vstd::prelude::*;
use vstd::arithmetic::div_mod::lemma_div_is_ordered_by_denominator;
use vstd::arithmetic::power2::{pow2, lemma2_to64, lemma2_to64_rest};
use crate::allocator::buddy_allocator::{BuddyAllocator, BuddyError, MIN_ORDER, MAX_ORDER, block_size};

verus! {

/// Number of size classes: 8, 16, ..., 2048 bytes.
pub const NUM_SLABS: usize = 9;
/// Largest request served by a size class.
pub const MAX_SLAB_SIZE: usize = 2048;
pub const PAGE_SIZE: usize = 4096;
/// Buddy order of one page.
pub const PAGE_ORDER: usize = 12;

/// Object size of class `i`: 2^(i + 3) bytes.
pub open spec fn class_size(i: nat) -> nat {
    pow2(i + 3)
}

/// The smallest buddy order whose block holds `size` bytes, 12 at least:
/// `12 + ceil(log2(ceil(size / 4096)))`.
pub open spec fn is_buddy_order_for(size: nat, order: nat) -> bool {
    &&& order >= PAGE_ORDER
    &&& pow2(order) >= size
    &&& (order == PAGE_ORDER || pow2((order - 1) as nat) < size)
}

pub open spec fn max_nat(a: nat, b: nat) -> nat {
    if a >= b { a } else { b }
}

/// Object size of class `i`.
pub fn slab_size(i: usize) -> (r: usize)
    requires
        i < NUM_SLABS,
    ensures
        r as nat == class_size(i as nat),
        8 <= r <= MAX_SLAB_SIZE,
{
    proof {
        lemma2_to64();
    }
    let r = block_size(i + 3) as usize;
    proof {
        if i == 0 {} else if i == 1 {} else if i == 2 {} else if i == 3 {} else if i == 4 {}
        else if i == 5 {} else if i == 6 {} else if i == 7 {} else {}
    }
    r
}

/// The smallest order from `o` up (at most 63) whose block holds `size` bytes.
pub open spec fn order_from(size: nat, o: nat) -> nat
    decreases 63 - o,
{
    if o >= 63 || pow2(o) >= size {
        o
    } else {
        order_from(size, o + 1)
    }
}

/// Order of the buddy block that holds `size` bytes: the number of 4 KiB
/// pages, rounded up to a power of two, as an order.
pub fn size_to_buddy_order(size: usize) -> (r: usize)
    requires
        size as nat <= 0x8000_0000_0000_0000nat,
    ensures
        is_buddy_order_for(size as nat, r as nat),
        r as nat == order_from(size as nat, PAGE_ORDER as nat),
        r <= 63,
{
    proof {
        lemma2_to64();
        lemma2_to64_rest();
    }
    let mut order: usize = PAGE_ORDER;
    loop
        invariant
            PAGE_ORDER <= order <= 63,
            size as nat <= 0x8000_0000_0000_0000nat,
            pow2(63) == 0x8000_0000_0000_0000,
            pow2(12) == 4096,
            order == PAGE_ORDER || pow2((order - 1) as nat) < size,
            order_from(size as nat, PAGE_ORDER as nat) == order_from(size as nat, order as nat),
        ensures
            is_buddy_order_for(size as nat, order as nat),
            order as nat == order_from(size as nat, PAGE_ORDER as nat),
            order <= 63,
        decreases 63 - order,
    {
        let b = block_size(order);
        if b >= size as u64 {
            break;
        }
        if order == 63 {
            break;
        }
        order = order + 1;
    }
    order
}

/// The index of the smallest class whose objects hold `size` bytes.
pub fn slab_index(size: usize) -> (r: Option<usize>)
    ensures
        size <= MAX_SLAB_SIZE <==> r.is_some(),
        r.is_some() ==> r.unwrap() < NUM_SLABS && class_size(r.unwrap() as nat) >= size
            && (r.unwrap() == 0 || class_size((r.unwrap() - 1) as nat) < size),
{
    let mut i: usize = 0;
    while i < NUM_SLABS
        invariant
            i <= NUM_SLABS,
            i == 0 || class_size((i - 1) as nat) < size,
        decreases NUM_SLABS - i,
    {
        if slab_size(i) >= size {
            return Some(i);
        }
        i = i + 1;
    }
    proof {
        lemma2_to64();
        assert(class_size(8) == 2048);
    }
    None
}

/// Why the slab allocator refused to take an object back.
#[derive(Clone, Copy, Debug, PartialEq, Eq, Structural)]
pub enum SlabError {
    /// The class has no object handed out.
    NotAllocated,
    /// The buddy allocator refused a large block.
    Buddy(BuddyError),
}

/// Objects of one size: a free list of addresses cut from 4 KiB frames.
pub struct SlabCache {
    free_list: Vec<u64>,
    total_objects: usize,
    used_objects: usize,
}

impl SlabCache {
    pub closed spec fn free_count(&self) -> nat {
        self.free_list@.len()
    }

    pub closed spec fn used(&self) -> nat {
        self.used_objects as nat
    }

    pub closed spec fn total(&self) -> nat {
        self.total_objects as nat
    }

    /// `used + free = total`.
    pub open spec fn wf(&self) -> bool {
        self.used() + self.free_count() == self.total()
    }

    /// An empty cache.
    pub fn new() -> (r: Self)
        ensures
            r.wf(),
            r.used() == 0,
            r.total() == 0,
            r.free_count() == 0,
    {
        SlabCache { free_list: Vec::new(), total_objects: 0, used_objects: 0 }
    }

    /// (total objects, objects in use).
    pub fn stats(&self) -> (r: (usize, usize))
        ensures
            r.0 as nat == self.total(),
            r.1 as nat == self.used(),
    {
        (self.total_objects, self.used_objects)
    }

    /// Takes one frame from the buddy and cuts it into objects of
    /// `object_size` bytes, pushed so that the frame's first object is the
    /// head. Returns false, changing nothing, when the buddy has no frame.
    fn expand(&mut self, object_size: usize, buddy: &mut BuddyAllocator) -> (r: bool)
        requires
            old(self).wf(),
            old(buddy).wf(),
            8 <= object_size <= MAX_SLAB_SIZE,
            old(self).total() + PAGE_SIZE <= usize::MAX,
        ensures
            final(self).wf(),
            final(buddy).wf(),
            final(buddy).total_bytes() == old(buddy).total_bytes(),
            final(self).used() == old(self).used(),
            r ==> final(self).free_count() > 0 && final(self).total() == old(self).total() + PAGE_SIZE / object_size,
            old(buddy).free_from(PAGE_ORDER as nat) > 0 ==> r,
            !r ==> final(self).total() == old(self).total() && final(self).free_count() == old(self).free_count(),
    {
        let page = match buddy.allocate(PAGE_ORDER) {
            Some(p) => p,
            None => return false,
        };
        let n: usize = PAGE_SIZE / object_size;
        let mut i: usize = n;
        let ghost start_len = self.free_list@.len();
        while i > 0
            invariant
                i <= n,
                n == PAGE_SIZE / object_size,
                8 <= object_size <= MAX_SLAB_SIZE,
                page + pow2(PAGE_ORDER as nat) <= 0x10_0000_0000_0000u64,
                self.free_list@.len() == start_len + (n - i),
                self.total_objects == old(self).total_objects,
                self.used_objects == old(self).used_objects,
            decreases i,
        {
            i = i - 1;
            proof {
                lemma2_to64();
                assert(i * object_size < PAGE_SIZE) by (nonlinear_arith)
                    requires i < n, n == PAGE_SIZE / object_size, object_size > 0;
            }
            self.free_list.push(page + (i * object_size) as u64);
        }
        proof {
            lemma_div_is_ordered_by_denominator(PAGE_SIZE as int, object_size as int, MAX_SLAB_SIZE as int);
            assert(n >= 2);
        }
        self.total_objects = self.total_objects + n;
        true
    }

    /// Hands out one object (the head of the free list), expanding the cache
    /// by a frame first when the list is empty; `None` when the buddy is out
    /// of frames.
    pub fn allocate(&mut self, object_size: usize, buddy: &mut BuddyAllocator) -> (r: Option<u64>)
        requires
            old(self).wf(),
            old(buddy).wf(),
            8 <= object_size <= MAX_SLAB_SIZE,
        ensures
            final(self).wf(),
            final(buddy).wf(),
            final(buddy).total_bytes() == old(buddy).total_bytes(),
            r.is_some() ==> final(self).used() == old(self).used() + 1,
            r.is_none() ==> final(self).used() == old(self).used() && old(self).free_count() == 0,
            old(self).free_count() > 0 ==> r.is_some() && *final(buddy) == *old(buddy),
            old(self).total() + PAGE_SIZE <= usize::MAX && old(buddy).free_from(PAGE_ORDER as nat) > 0 ==> r.is_some(),
    {
        if self.free_list.len() == 0 {
            if self.total_objects > usize::MAX - PAGE_SIZE {
                return None;
            }
            if !self.expand(object_size, buddy) {
                return None;
            }
        }
        let obj = self.free_list.pop().unwrap();
        self.used_objects = self.used_objects + 1;
        Some(obj)
    }

    /// Takes an object back: it becomes the head of the free list. Refused
    /// when no object of this class is in use.
    pub fn deallocate(&mut self, addr: u64) -> (r: Result<(), SlabError>)
        requires
            old(self).wf(),
        ensures
            final(self).wf(),
            final(self).total() == old(self).total(),
            r.is_ok() <==> old(self).used() > 0,
            r.is_ok() ==> final(self).used() + 1 == old(self).used(),
            r.is_err() ==> final(self).used() == old(self).used() && r == Err::<(), SlabError>(SlabError::NotAllocated),
    {
        if self.used_objects == 0 {
            return Err(SlabError::NotAllocated);
        }
        self.free_list.push(addr);
        self.used_objects = self.used_objects - 1;
        Ok(())
    }
}

/// The order that `allocate_large` asks of the buddy for a request of
/// (size, align).
pub open spec fn large_alloc_order(size: nat, align: nat) -> nat {
    order_from(max_nat(size, align), PAGE_ORDER as nat)
}

/// The order that `deallocate_large` hands back to the buddy for (size, align).
pub open spec fn large_dealloc_order(size: nat, align: nat) -> nat {
    order_from(max_nat(size, align), PAGE_ORDER as nat)
}

/// Symmetry: for every (size, align), a large block is freed at the order at
/// which it was allocated.
pub proof fn lemma_large_order_symmetry(size: nat, align: nat)
    ensures
        large_alloc_order(size, align) == large_dealloc_order(size, align),
{
}

/// Small-object allocator: one cache per size class, large requests straight
/// from the buddy.
pub struct SlabAllocator {
    caches: Vec<SlabCache>,
}

impl SlabAllocator {
    /// Objects in use, per class.
    pub closed spec fn used_counts(&self) -> Seq<nat> {
        self.caches@.map_values(|c: SlabCache| c.used())
    }

    /// The cache of class `i`.
    pub closed spec fn cache(&self, i: int) -> SlabCache {
        self.caches@[i]
    }

    pub closed spec fn wf(&self) -> bool {
        &&& self.caches@.len() == NUM_SLABS
        &&& forall|i: int| 0 <= i < NUM_SLABS ==> (#[trigger] self.caches@[i]).wf()
    }

    /// Nine empty caches.
    pub fn new() -> (r: Self)
        ensures
            r.wf(),
            r.used_counts().len() == NUM_SLABS,
            forall|i: int| 0 <= i < NUM_SLABS ==> #[trigger] r.used_counts()[i] == 0,
            forall|i: int| 0 <= i < NUM_SLABS ==> (#[trigger] r.cache(i)).used() == 0 && r.cache(i).total() == 0
                && r.cache(i).free_count() == 0,
    {
        let mut caches: Vec<SlabCache> = Vec::new();
        let mut i: usize = 0;
        while i < NUM_SLABS
            invariant
                i <= NUM_SLABS,
                caches@.len() == i,
                forall|j: int| 0 <= j < i ==> (#[trigger] caches@[j]).wf() && caches@[j].used() == 0
                    && caches@[j].total() == 0 && caches@[j].free_count() == 0,
            decreases NUM_SLABS - i,
        {
            caches.push(SlabCache::new());
            i = i + 1;
        }
        SlabAllocator { caches }
    }

    /// Serves a request of (size, align): above 2 KiB from the buddy at
    /// `large_alloc_order`, else an object of the smallest class that holds
    /// max(size, align). `None` when memory is exhausted or the request is
    /// larger than the largest buddy block.
    pub fn allocate(&mut self, size: usize, align: usize, buddy: &mut BuddyAllocator) -> (r: Option<u64>)
        requires
            old(self).wf(),
            old(buddy).wf(),
            size as nat <= 0x8000_0000_0000_0000nat,
            align as nat <= 0x8000_0000_0000_0000nat,
        ensures
            final(self).wf(),
            final(buddy).wf(),
            final(buddy).total_bytes() == old(buddy).total_bytes(),
            max_nat(size as nat, align as nat) > MAX_SLAB_SIZE ==> final(self).used_counts() == old(self).used_counts()
                && (r.is_some() ==> final(buddy).allocated_bytes()
                    == old(buddy).allocated_bytes() + pow2(large_alloc_order(size as nat, align as nat))
                    && final(buddy).outstanding().contains((r.unwrap(), large_alloc_order(size as nat, align as nat))))
                && (r.is_none() ==> final(buddy).allocated_bytes() == old(buddy).allocated_bytes()),
            max_nat(size as nat, align as nat) <= MAX_SLAB_SIZE ==> ({
                let i = slab_class(max_nat(size as nat, align as nat));
                &&& r.is_some() ==> final(self).used_counts() == old(self).used_counts().update(i, old(self).used_counts()[i] + 1)
                &&& r.is_none() ==> final(self).used_counts() == old(self).used_counts()
                &&& (old(self).cache(i).free_count() > 0 || (old(self).cache(i).total() + PAGE_SIZE <= usize::MAX
                    && old(buddy).free_from(PAGE_ORDER as nat) > 0)) ==> r.is_some()
            }),
            max_nat(size as nat, align as nat) > MAX_SLAB_SIZE && large_alloc_order(size as nat, align as nat) <= MAX_ORDER
                && old(buddy).free_from(large_alloc_order(size as nat, align as nat)) > 0 ==> r.is_some(),
    {
        let s = if size >= align { size } else { align };
        if s > MAX_SLAB_SIZE {
            return self.allocate_large(size, align, buddy);
        }
        let idx = slab_index(s).unwrap();
        proof {
            lemma_slab_class(s as nat, idx as nat);
        }
        let object_size = slab_size(idx);
        let ghost before = self.used_counts();
        proof {
            assert(self.cache(idx as int) == self.caches@[idx as int]);
        }
        let r = self.caches[idx].allocate(object_size, buddy);
        proof {
            if r.is_some() {
                assert(self.used_counts() =~= before.update(idx as int, before[idx as int] + 1));
            } else {
                assert(self.used_counts() =~= before);
            }
        }
        r
    }

    /// A block of order `large_alloc_order(size, align)` from the buddy.
    fn allocate_large(&mut self, size: usize, align: usize, buddy: &mut BuddyAllocator) -> (r: Option<u64>)
        requires
            old(buddy).wf(),
            size as nat <= 0x8000_0000_0000_0000nat,
            align as nat <= 0x8000_0000_0000_0000nat,
        ensures
            *final(self) == *old(self),
            final(buddy).wf(),
            final(buddy).total_bytes() == old(buddy).total_bytes(),
            r.is_some() ==> final(buddy).allocated_bytes()
                == old(buddy).allocated_bytes() + pow2(large_alloc_order(size as nat, align as nat))
                && final(buddy).outstanding() == old(buddy).outstanding().insert((r.unwrap(), large_alloc_order(size as nat, align as nat))),
            r.is_none() ==> final(buddy).allocated_bytes() == old(buddy).allocated_bytes(),
            large_alloc_order(size as nat, align as nat) <= MAX_ORDER
                && old(buddy).free_from(large_alloc_order(size as nat, align as nat)) > 0 ==> r.is_some(),
    {
        let total = if size >= align { size } else { align };
        let order = size_to_buddy_order(total);
        if order > MAX_ORDER {
            return None;
        }
        buddy.allocate(order)
    }

    /// Takes back what `allocate(size, align)` handed out at `addr`.
    pub fn deallocate(&mut self, addr: u64, size: usize, align: usize, buddy: &mut BuddyAllocator) -> (r: Result<(), SlabError>)
        requires
            old(self).wf(),
            old(buddy).wf(),
            max_nat(size as nat, align as nat) > MAX_SLAB_SIZE
                ==> old(buddy).outstanding().contains((addr, large_dealloc_order(size as nat, align as nat))),
            size as nat <= 0x8000_0000_0000_0000nat,
            align as nat <= 0x8000_0000_0000_0000nat,
        ensures
            final(self).wf(),
            final(buddy).wf(),
            final(buddy).total_bytes() == old(buddy).total_bytes(),
            max_nat(size as nat, align as nat) > MAX_SLAB_SIZE ==> final(self).used_counts() == old(self).used_counts()
                && r.is_ok()
                && final(buddy).allocated_bytes() + pow2(large_dealloc_order(size as nat, align as nat))
                    == old(buddy).allocated_bytes()
                && final(buddy).outstanding() == old(buddy).outstanding().remove((addr, large_dealloc_order(size as nat, align as nat))),
            max_nat(size as nat, align as nat) <= MAX_SLAB_SIZE ==> ({
                let i = slab_class(max_nat(size as nat, align as nat));
                &&& *final(buddy) == *old(buddy)
                &&& r.is_ok() <==> old(self).used_counts()[i] > 0
                &&& r.is_ok() ==> final(self).used_counts() == old(self).used_counts().update(i, (old(self).used_counts()[i] - 1) as nat)
                &&& r.is_err() ==> final(self).used_counts() == old(self).used_counts()
            }),
    {
        let s = if size >= align { size } else { align };
        if s > MAX_SLAB_SIZE {
            return self.deallocate_large(addr, size, align, buddy);
        }
        let idx = slab_index(s).unwrap();
        proof {
            lemma_slab_class(s as nat, idx as nat);
        }
        let ghost before = self.used_counts();
        let r = self.caches[idx].deallocate(addr);
        proof {
            if r.is_ok() {
                assert(self.used_counts() =~= before.update(idx as int, (before[idx as int] - 1) as nat));
            } else {
                assert(self.used_counts() =~= before);
            }
        }
        r
    }

    /// Returns a large block to the buddy at `large_dealloc_order(size, align)`.
    fn deallocate_large(&mut self, addr: u64, size: usize, align: usize, buddy: &mut BuddyAllocator) -> (r: Result<(), SlabError>)
        requires
            old(buddy).wf(),
            old(buddy).outstanding().contains((addr, large_dealloc_order(size as nat, align as nat))),
            size as nat <= 0x8000_0000_0000_0000nat,
            align as nat <= 0x8000_0000_0000_0000nat,
        ensures
            *final(self) == *old(self),
            final(buddy).wf(),
            final(buddy).total_bytes() == old(buddy).total_bytes(),
            r.is_ok(),
            final(buddy).allocated_bytes() + pow2(large_dealloc_order(size as nat, align as nat))
                == old(buddy).allocated_bytes(),
            final(buddy).outstanding() == old(buddy).outstanding().remove((addr, large_dealloc_order(size as nat, align as nat))),
    {
        let total = if size >= align { size } else { align };
        let order = size_to_buddy_order(total);
        if order < MIN_ORDER || order > MAX_ORDER {
            return Err(SlabError::Buddy(BuddyError::OutOfRange));
        }
        match buddy.deallocate(addr, order) {
            Ok(()) => Ok(()),
            Err(e) => Err(SlabError::Buddy(e)),
        }
    }

    /// (class size, objects in use, total objects) for every class.
    pub fn stats(&self) -> (r: Vec<(usize, usize, usize)>)
        requires
            self.wf(),
        ensures
            r@.len() == NUM_SLABS,
            forall|i: int| 0 <= i < NUM_SLABS ==> (#[trigger] r@[i]).0 as nat == class_size(i as nat)
                && r@[i].1 as nat == self.used_counts()[i],
    {
        let mut r: Vec<(usize, usize, usize)> = Vec::new();
        let mut i: usize = 0;
        while i < NUM_SLABS
            invariant
                i <= NUM_SLABS,
                self.wf(),
                r@.len() == i,
                forall|j: int| 0 <= j < i ==> (#[trigger] r@[j]).0 as nat == class_size(j as nat)
                    && r@[j].1 as nat == self.used_counts()[j],
            decreases NUM_SLABS - i,
        {
            let (total, used) = self.caches[i].stats();
            r.push((slab_size(i), used, total));
            i = i + 1;
        }
        r
    }
}

/// Per-class statistics of `slab`: (class size, in use, total).
pub fn slab_stats(slab: &SlabAllocator) -> (r: Vec<(usize, usize, usize)>)
    requires
        slab.wf(),
    ensures
        r@.len() == NUM_SLABS,
        forall|i: int| 0 <= i < NUM_SLABS ==> (#[trigger] r@[i]).1 as nat == slab.used_counts()[i],
{
    slab.stats()
}

/// The class that serves `size` bytes (size at most 2048).
pub open spec fn slab_class(size: nat) -> int {
    if size <= 8 { 0 } else if size <= 16 { 1 } else if size <= 32 { 2 } else if size <= 64 { 3 }
    else if size <= 128 { 4 } else if size <= 256 { 5 } else if size <= 512 { 6 }
    else if size <= 1024 { 7 } else { 8 }
}

proof fn lemma_slab_class(size: nat, i: nat)
    requires
        i < NUM_SLABS,
        class_size(i) >= size,
        i == 0 || class_size((i - 1) as nat) < size,
    ensures
        slab_class(size) == i,
{
    lemma2_to64();
}

/// No leak: an allocation followed by the deallocation of the same layout
/// leaves every class's count of objects in use as it was, so any run of such
/// pairs from a fresh allocator ends with every count at zero.
pub proof fn lemma_alloc_free_pair(c0: Seq<nat>, i: int, c1: Seq<nat>, c2: Seq<nat>)
    requires
        0 <= i < c0.len(),
        c1 == c0.update(i, c0[i] + 1),
        c2 == c1.update(i, (c1[i] - 1) as nat),
    ensures
        c2 == c0,
{
    assert(c2 =~= c0);
}

} // verus!

verus! {

/// The kernel heap: the slab allocator over the buddy allocator.
pub struct SlabGlobalAlloc {
    pub slab: SlabAllocator,
    pub buddy: BuddyAllocator,
}

impl SlabGlobalAlloc {
    pub open spec fn wf(&self) -> bool {
        self.slab.wf() && self.buddy.wf()
    }

    /// A heap over `buddy`, no object handed out.
    pub fn new(buddy: BuddyAllocator) -> (r: Self)
        requires
            buddy.wf(),
        ensures
            r.wf(),
            r.buddy == buddy,
    {
        SlabGlobalAlloc { slab: SlabAllocator::new(), buddy }
    }

    /// `GlobalAlloc::alloc`: an address for (size, align), `None` for null.
    pub fn allocate(&mut self, size: usize, align: usize) -> (r: Option<u64>)
        requires
            old(self).wf(),
            size as nat <= 0x8000_0000_0000_0000nat,
            align as nat <= 0x8000_0000_0000_0000nat,
        ensures
            final(self).wf(),
            final(self).slab.wf(),
            final(self).buddy.wf(),
            final(self).buddy.total_bytes() == old(self).buddy.total_bytes(),
            max_nat(size as nat, align as nat) > MAX_SLAB_SIZE ==> final(self).slab.used_counts() == old(self).slab.used_counts()
                && (r.is_some() ==> final(self).buddy.allocated_bytes()
                    == old(self).buddy.allocated_bytes() + pow2(large_alloc_order(size as nat, align as nat))
                    && final(self).buddy.outstanding().contains((r.unwrap(), large_alloc_order(size as nat, align as nat))))
                && (r.is_none() ==> final(self).buddy.allocated_bytes() == old(self).buddy.allocated_bytes()),
            max_nat(size as nat, align as nat) <= MAX_SLAB_SIZE ==> ({
                let i = slab_class(max_nat(size as nat, align as nat));
                &&& r.is_some() ==> final(self).slab.used_counts() == old(self).slab.used_counts().update(i, old(self).slab.used_counts()[i] + 1)
                &&& r.is_none() ==> final(self).slab.used_counts() == old(self).slab.used_counts()
                &&& (old(self).slab.cache(i).free_count() > 0 || (old(self).slab.cache(i).total() + PAGE_SIZE <= usize::MAX
                    && old(self).buddy.free_from(PAGE_ORDER as nat) > 0)) ==> r.is_some()
            }),
            max_nat(size as nat, align as nat) > MAX_SLAB_SIZE && large_alloc_order(size as nat, align as nat) <= MAX_ORDER
                && old(self).buddy.free_from(large_alloc_order(size as nat, align as nat)) > 0 ==> r.is_some(),
    {
        self.slab.allocate(size, align, &mut self.buddy)
    }

    /// `GlobalAlloc::dealloc`.
    pub fn deallocate(&mut self, addr: u64, size: usize, align: usize) -> (r: Result<(), SlabError>)
        requires
            old(self).wf(),
            max_nat(size as nat, align as nat) > MAX_SLAB_SIZE
                ==> old(self).buddy.outstanding().contains((addr, large_dealloc_order(size as nat, align as nat))),
            size as nat <= 0x8000_0000_0000_0000nat,
            align as nat <= 0x8000_0000_0000_0000nat,
        ensures
            final(self).wf(),
            final(self).slab.wf(),
            final(self).buddy.wf(),
            final(self).buddy.total_bytes() == old(self).buddy.total_bytes(),
            max_nat(size as nat, align as nat) > MAX_SLAB_SIZE ==> final(self).slab.used_counts() == old(self).slab.used_counts()
                && r.is_ok()
                && final(self).buddy.allocated_bytes() + pow2(large_dealloc_order(size as nat, align as nat))
                    == old(self).buddy.allocated_bytes()
                && final(self).buddy.outstanding() == old(self).buddy.outstanding().remove((addr, large_dealloc_order(size as nat, align as nat))),
            max_nat(size as nat, align as nat) <= MAX_SLAB_SIZE ==> ({
                let i = slab_class(max_nat(size as nat, align as nat));
                &&& final(self).buddy == old(self).buddy
                &&& r.is_ok() <==> old(self).slab.used_counts()[i] > 0
                &&& r.is_ok() ==> final(self).slab.used_counts() == old(self).slab.used_counts().update(i, (old(self).slab.used_counts()[i] - 1) as nat)
                &&& r.is_err() ==> final(self).slab.used_counts() == old(self).slab.used_counts()
            }),
    {
        self.slab.deallocate(addr, size, align, &mut self.buddy)
    }
}

} // verus!
