use vstd::prelude::*;
use crate::allocator::buddy_allocator::{BuddyAllocator, MIN_ORDER, took_frame, same_memory};
use crate::memory::vma::{Vma, VmaKind, VmaList, VmaError, vma_contains, add_outcome};
use crate::memory::demand_paging::{FaultReason, page_of};

verus! {

/// Number of entries of a root (PML4) page table.
pub const ROOT_ENTRIES: usize = 512;
/// User code base; falls in root entry 0.
pub const USER_CODE_BASE: u64 = 0x0000_0000_0040_0000;
/// Base of the user stacks; falls in root entry 226.
pub const USER_STACK_BASE: u64 = 0x0000_7100_0000_0000;

pub open spec fn pml4_index_spec(va: u64) -> u64 {
    (va >> 39) & 0x1FF
}

/// Root-table index of a virtual address (bits 47..39).
pub fn pml4_index(va: u64) -> (r: usize)
    ensures
        r as u64 == pml4_index_spec(va),
        r < ROOT_ENTRIES,
{
    let i = (va >> 39) & 0x1FF;
    assert(((va >> 39) & 0x1FF) < 512) by (bit_vector);
    i as usize
}

/// Root entries that belong to user processes: those of the user code base
/// and of the user stacks. They are never shared with the kernel's table.
pub fn is_user_pml4_entry(index: usize) -> (r: bool)
    ensures
        r == (index as u64 == pml4_index_spec(USER_CODE_BASE) || index as u64 == pml4_index_spec(USER_STACK_BASE)),
{
    let a = pml4_index(USER_CODE_BASE);
    let b = pml4_index(USER_STACK_BASE);
    index == a || index == b
}

/// Which root entries a new user table copies from the kernel's: every
/// present one outside the user ranges. `present[i]` says whether kernel
/// entry i is in use.
pub fn kernel_entries_to_copy(present: &Vec<bool>) -> (r: Vec<usize>)
    requires
        present@.len() == ROOT_ENTRIES,
    ensures
        forall|k: int| 0 <= k < r@.len() ==> (#[trigger] r@[k]) < ROOT_ENTRIES && present@[r@[k] as int]
            && !(r@[k] as u64 == pml4_index_spec(USER_CODE_BASE) || r@[k] as u64 == pml4_index_spec(USER_STACK_BASE)),
        forall|i: int| 0 <= i < ROOT_ENTRIES && #[trigger] present@[i]
            && !(i as u64 == pml4_index_spec(USER_CODE_BASE) || i as u64 == pml4_index_spec(USER_STACK_BASE))
            ==> r@.contains(i as usize),
        forall|a: int, b: int| 0 <= a < b < r@.len() ==> r@[a] < r@[b],
{
    let mut r: Vec<usize> = Vec::new();
    let mut i: usize = 0;
    while i < ROOT_ENTRIES
        invariant
            i <= ROOT_ENTRIES,
            present@.len() == ROOT_ENTRIES,
            forall|k: int| 0 <= k < r@.len() ==> (#[trigger] r@[k]) < i && present@[r@[k] as int]
                && !(r@[k] as u64 == pml4_index_spec(USER_CODE_BASE) || r@[k] as u64 == pml4_index_spec(USER_STACK_BASE)),
            forall|j: int| 0 <= j < i && #[trigger] present@[j]
                && !(j as u64 == pml4_index_spec(USER_CODE_BASE) || j as u64 == pml4_index_spec(USER_STACK_BASE))
                ==> r@.contains(j as usize),
            forall|a: int, b: int| 0 <= a < b < r@.len() ==> r@[a] < r@[b],
        decreases ROOT_ENTRIES - i,
    {
        if present[i] && !is_user_pml4_entry(i) {
            let ghost r0 = r@;
            r.push(i);
            proof {
                assert(r@[r@.len() - 1] == i);
                assert forall|j: int| 0 <= j < i + 1 && #[trigger] present@[j]
                    && !(j as u64 == pml4_index_spec(USER_CODE_BASE) || j as u64 == pml4_index_spec(USER_STACK_BASE))
                    implies r@.contains(j as usize) by {
                    if j < i {
                        let k = choose|k: int| 0 <= k < r0.len() && r0[k] == j as usize;
                        assert(r@[k] == r0[k]);
                    }
                }
            }
        }
        i = i + 1;
    }
    r
}

/// Why an address space could not be made.
#[derive(Clone, Copy, Debug, PartialEq, Eq, Structural)]
pub enum AddressSpaceError {
    OutOfMemory,
}

/// A page mapping the caller must install in the hardware table: zero
/// `frame`, then map `page` to it with `flags`.
#[derive(Clone, Copy, Debug, PartialEq, Eq, Structural)]
pub struct DemandMapping {
    pub page: u64,
    pub frame: u64,
    pub flags: u64,
}

/// A root page-table frame, the areas of the process, and the user pages
/// mapped so far (page, frame).
pub struct AddressSpace {
    root: u64,
    vmas: VmaList,
    mapped: Vec<(u64, u64)>,
}

impl AddressSpace {
    pub closed spec fn root_spec(&self) -> u64 {
        self.root
    }

    pub closed spec fn vma_list(&self) -> VmaList {
        self.vmas
    }

    pub closed spec fn mappings(&self) -> Seq<(u64, u64)> {
        self.mapped@
    }

    pub open spec fn is_mapped(&self, page: u64) -> bool {
        exists|k: int| 0 <= k < self.mappings().len() && (#[trigger] self.mappings()[k]).0 == page
    }

    /// Areas well formed; every mapped page is page-aligned, lies in an area,
    /// and is mapped once.
    pub open spec fn wf(&self) -> bool {
        &&& self.vma_list().wf()
        &&& forall|k: int| 0 <= k < self.mappings().len() ==> (#[trigger] self.mappings()[k]).0 % 4096 == 0
                && exists|v: Vma| self.vma_list().has(v) && vma_contains(v, self.mappings()[k].0 as int)
        &&& forall|a: int, b: int| 0 <= a < b < self.mappings().len()
                ==> (#[trigger] self.mappings()[a]).0 != (#[trigger] self.mappings()[b]).0
    }

    /// The kernel's own space: the table whose root frame is `root`, no areas.
    pub fn kernel(root: u64) -> (r: Self)
        ensures
            r.wf(),
            r.root_spec() == root,
            r.vma_list().is_empty_list(),
            r.mappings().len() == 0,
    {
        AddressSpace { root, vmas: VmaList::new(), mapped: Vec::new() }
    }

    /// A new user space: a fresh root frame from the buddy, no areas.
    pub fn new_user(buddy: &mut BuddyAllocator) -> (r: Result<Self, AddressSpaceError>)
        requires
            old(buddy).wf(),
        ensures
            final(buddy).wf(),
            r.is_err() <==> old(buddy).free_from(MIN_ORDER as nat) == 0,
            r.is_err() ==> same_memory(*old(buddy), *final(buddy)),
            r.is_ok() ==> r.unwrap().wf() && r.unwrap().vma_list().is_empty_list() && r.unwrap().mappings().len() == 0
                && took_frame(*old(buddy), *final(buddy), r.unwrap().root_spec()),
    {
        match buddy.allocate(12) {
            None => Err(AddressSpaceError::OutOfMemory),
            Some(root) => Ok(AddressSpace { root, vmas: VmaList::new(), mapped: Vec::new() }),
        }
    }

    /// Registers an area.
    #[verifier::rlimit(40)]
    pub fn add_vma(&mut self, vma: Vma) -> (r: Result<(), VmaError>)
        requires
            old(self).wf(),
        ensures
            final(self).wf(),
            final(self).root_spec() == old(self).root_spec(),
            final(self).mappings() == old(self).mappings(),
            r.is_ok() ==> final(self).vma_list().has(vma),
            forall|v: Vma| old(self).vma_list().has(v) ==> #[trigger] final(self).vma_list().has(v),
            final(self).vma_list().wf(),
            add_outcome(old(self).vma_list().slots(), vma, final(self).vma_list().slots(), r),
    {
        let ghost old_slots = self.vma_list().slots();
        let r = self.vmas.add(vma);
        proof {
            assert forall|v: Vma| old(self).vma_list().has(v) implies #[trigger] self.vma_list().has(v) by {
                let j = choose|j: int| 0 <= j < old_slots.len() && old_slots[j] == Some(v);
                assert(self.vma_list().slots()[j] == Some(v));
            }
            if r.is_ok() {
                let i = choose|i: int| 0 <= i < old_slots.len() && (#[trigger] old_slots[i]).is_none()
                    && self.vma_list().slots() == old_slots.update(i, Some(vma))
                    && forall|j: int| 0 <= j < i ==> (#[trigger] old_slots[j]).is_some();
                assert(self.vma_list().slots()[i] == Some(vma));
            }
            assert forall|k: int| 0 <= k < self.mappings().len() implies (#[trigger] self.mappings()[k]).0 % 4096 == 0
                && exists|v: Vma| self.vma_list().has(v) && vma_contains(v, self.mappings()[k].0 as int) by {
                assert(self.mappings()[k] == old(self).mappings()[k]);
                let v = choose|v: Vma| old(self).vma_list().has(v) && vma_contains(v, old(self).mappings()[k].0 as int);
                let j = choose|j: int| 0 <= j < old_slots.len() && old_slots[j] == Some(v);
                assert(self.vma_list().slots()[j] == Some(v));
                assert(self.vma_list().has(v));
            }
        }
        r
    }

    /// The area that contains `addr`.
    pub fn find_vma(&self, addr: u64) -> (r: Option<Vma>)
        requires
            self.wf(),
        ensures
            r.is_some() ==> self.vma_list().has(r.unwrap()) && vma_contains(r.unwrap(), addr as int),
            r.is_none() ==> forall|v: Vma| self.vma_list().has(v) ==> !vma_contains(v, addr as int),
    {
        let r = self.vmas.find(addr);
        proof {
            if r.is_none() {
                assert forall|v: Vma| self.vmas.has(v) implies !vma_contains(v, addr as int) by {
                    let i = choose|i: int| 0 <= i < self.vmas.slots().len() && self.vmas.slots()[i] == Some(v);
                    assert(self.vmas.slots()[i].is_some());
                }
            }
        }
        r
    }

    /// The registered areas.
    pub fn dump_vmas(&self) -> (r: Vec<Vma>)
        requires
            self.wf(),
        ensures
            forall|k: int| 0 <= k < r@.len() ==> self.vma_list().has(#[trigger] r@[k]),
    {
        self.vmas.iter()
    }

    /// Physical address of the root frame.
    pub fn pml4_phys(&self) -> (r: u64)
        ensures
            r == self.root_spec(),
    {
        self.root
    }

    /// The root frame (its physical address).
    pub fn root_frame(&self) -> (r: u64)
        ensures
            r == self.root_spec(),
    {
        self.root
    }

    /// Activating this space writes CR3 only when it holds another root; an
    /// unchanged CR3 spares the TLB flush.
    pub fn needs_activation(&self, current_root: u64) -> (r: bool)
        ensures
            r == (current_root != self.root_spec()),
    {
        current_root != self.root
    }

    /// The frame mapped at `page`, if any.
    pub fn mapped_frame(&self, page: u64) -> (r: Option<u64>)
        requires
            self.wf(),
        ensures
            r.is_some() <==> self.is_mapped(page),
            r.is_some() ==> exists|k: int| 0 <= k < self.mappings().len()
                && #[trigger] self.mappings()[k] == (page, r.unwrap()),
    {
        let mut k: usize = 0;
        while k < self.mapped.len()
            invariant
                k <= self.mappings().len(),
                self.mappings() == self.mapped@,
                forall|j: int| 0 <= j < k ==> (#[trigger] self.mappings()[j]).0 != page,
            decreases self.mappings().len() - k,
        {
            let (p, f) = self.mapped[k];
            if p == page {
                assert(self.mappings()[k as int] == (page, f));
                return Some(f);
            }
            k = k + 1;
        }
        None
    }

    /// Number of mapped pages in [start, end).
    pub fn mapped_count_in(&self, start: u64, end: u64) -> (r: usize)
        ensures
            r <= self.mappings().len(),
            r == self.mappings().filter(|m: (u64, u64)| start <= m.0 && m.0 < end).len(),
    {
        let mut k: usize = 0;
        let mut n: usize = 0;
        while k < self.mapped.len()
            invariant
                k <= self.mappings().len(),
                self.mappings() == self.mapped@,
                n == self.mappings().take(k as int).filter(|m: (u64, u64)| start <= m.0 && m.0 < end).len(),
                n <= k,
            decreases self.mappings().len() - k,
        {
            let (p, f) = self.mapped[k];
            proof {
                let s = self.mappings();
                assert(s.take(k + 1) =~= s.take(k as int).push(s[k as int]));
                s.take(k as int).lemma_filter_push(s[k as int], |m: (u64, u64)| start <= m.0 && m.0 < end);
            }
            if start <= p && p < end {
                n = n + 1;
            }
            k = k + 1;
        }
        proof {
            assert(self.mappings().take(k as int) =~= self.mappings());
        }
        n
    }

    /// Maps the page that contains `addr` to a fresh frame from the buddy.
    /// Refused when no area of this space contains the page, when it is
    /// mapped already, or when the buddy has no frame.
    #[verifier::rlimit(40)]
    pub fn map_user_page(&mut self, addr: u64, flags: u64, buddy: &mut BuddyAllocator) -> (r: Result<DemandMapping, FaultReason>)
        requires
            old(self).wf(),
            old(buddy).wf(),
        ensures
            final(self).wf(),
            final(buddy).wf(),
            final(self).root_spec() == old(self).root_spec(),
            final(self).vma_list() == old(self).vma_list(),
            (forall|v: Vma| old(self).vma_list().has(v) ==> !vma_contains(v, (addr - addr % 4096) as int))
                ==> r == Err::<DemandMapping, FaultReason>(FaultReason::NoVma(addr)),
            r.is_ok() ==> ({
                let m = r.unwrap();
                &&& m.page == addr - addr % 4096
                &&& m.flags == flags
                &&& !old(self).is_mapped(m.page)
                &&& final(self).mappings() == old(self).mappings().push((m.page, m.frame))
                &&& took_frame(*old(buddy), *final(buddy), m.frame)
            }),
            r.is_err() ==> final(self).mappings() == old(self).mappings() && same_memory(*old(buddy), *final(buddy)),
            (exists|v: Vma| old(self).vma_list().has(v) && vma_contains(v, (addr - addr % 4096) as int))
                && !old(self).is_mapped((addr - addr % 4096) as u64)
                && old(buddy).free_from(MIN_ORDER as nat) > 0 ==> r.is_ok(),
    {
        let page = page_of(addr);
        let v = self.find_vma(page);
        if v.is_none() {
            return Err(FaultReason::NoVma(addr));
        }
        if self.mapped_frame(page).is_some() {
            return Err(FaultReason::AlreadyMapped);
        }
        let frame = match buddy.allocate(12) {
            None => return Err(FaultReason::OutOfMemory),
            Some(f) => f,
        };
        let ghost m0 = self.mapped@;
        self.mapped.push((page, frame));
        proof {
            let vv = v.unwrap();
            assert forall|k: int| 0 <= k < self.mappings().len() implies (#[trigger] self.mappings()[k]).0 % 4096 == 0
                && exists|w: Vma| self.vmas.has(w) && vma_contains(w, self.mappings()[k].0 as int) by {
                if k < m0.len() {
                    assert(self.mappings()[k] == m0[k]);
                } else {
                    assert(self.vmas.has(vv) && vma_contains(vv, page as int));
                }
            }
            assert forall|a: int, b: int| 0 <= a < b < self.mappings().len()
                implies (#[trigger] self.mappings()[a]).0 != (#[trigger] self.mappings()[b]).0 by {
                if b == m0.len() {
                    assert(self.mappings()[a] == m0[a]);
                }
            }
        }
        Ok(DemandMapping { page, frame, flags })
    }
}

/// Resolves a demand-pageable fault at `fault_addr` inside `vma`: only an
/// Anonymous area is paged on demand; its page gets a fresh frame, which the
/// caller zeroes and maps with the area's flags.
pub fn map_demand_page(fault_addr: u64, vma: &Vma, space: &mut AddressSpace, buddy: &mut BuddyAllocator)
    -> (r: Result<DemandMapping, FaultReason>)
    requires
        old(space).wf(),
        old(buddy).wf(),
    ensures
        final(space).wf(),
        final(buddy).wf(),
        vma.kind == VmaKind::Code ==> r == Err::<DemandMapping, FaultReason>(FaultReason::CodePageNotPresent)
            && *final(space) == *old(space) && *final(buddy) == *old(buddy),
        r.is_ok() ==> r.unwrap().page == fault_addr - fault_addr % 4096 && r.unwrap().flags == vma.flags
            && final(space).mappings() == old(space).mappings().push((r.unwrap().page, r.unwrap().frame)),
        vma.kind == VmaKind::Anonymous && old(space).vma_list().has(*vma) && vma_contains(*vma, (fault_addr - fault_addr % 4096) as int)
            && !old(space).is_mapped((fault_addr - fault_addr % 4096) as u64)
            && old(buddy).free_from(MIN_ORDER as nat) > 0 ==> r.is_ok(),
        r.is_ok() ==> took_frame(*old(buddy), *final(buddy), r.unwrap().frame),
{
    match vma.kind {
        VmaKind::Code => Err(FaultReason::CodePageNotPresent),
        VmaKind::Anonymous => space.map_user_page(fault_addr, vma.flags, buddy),
    }
}

} // verus!
