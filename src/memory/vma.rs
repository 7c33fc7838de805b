use vstd::prelude::*;

verus! {

/// Number of processes the registry tracks.
pub const MAX_PROCESSES: usize = 64;
/// Capacity of one address space's VMA list.
pub const MAX_VMAS_PER_PROCESS: usize = 16;
pub const PAGE_BYTES: u64 = 4096;
/// First address above user space.
pub const USER_SPACE_END: u64 = 0x0000_8000_0000_0000;

/// The backing of an area.
#[derive(Clone, Copy, Debug, PartialEq, Eq, Structural)]
pub enum VmaKind {
    /// Zero-filled on first touch (stacks, heaps).
    Anonymous,
    /// Mapped eagerly when the process is set up; never demand-paged.
    Code,
}

/// A virtual memory area: `size_pages` pages from `start`, mapped with `flags`.
#[derive(Clone, Copy, Debug, PartialEq, Eq, Structural)]
pub struct Vma {
    pub start: u64,
    pub size_pages: usize,
    pub flags: u64,
    pub kind: VmaKind,
}

pub open spec fn vma_end(v: Vma) -> int {
    v.start + v.size_pages * 4096
}

pub open spec fn vma_contains(v: Vma, addr: int) -> bool {
    v.start <= addr < vma_end(v)
}

/// Page-aligned start, and the area ends inside user space.
pub open spec fn vma_wf(v: Vma) -> bool {
    v.start % 4096 == 0 && vma_end(v) <= USER_SPACE_END
}

pub open spec fn vmas_overlap(a: Vma, b: Vma) -> bool {
    a.start < vma_end(b) && b.start < vma_end(a)
}

/// The end of an area, computed without overflow.
fn end_wide(v: &Vma) -> (r: u128)
    ensures
        r == vma_end(*v),
{
    let pages = v.size_pages as u64 as u128;
    assert(pages * 4096 <= 0xFFFF_FFFF_FFFF_FFFFu128 * 4096) by (nonlinear_arith)
        requires pages <= 0xFFFF_FFFF_FFFF_FFFFu128;
    (v.start as u128) + pages * (PAGE_BYTES as u128)
}

impl Vma {
    /// Exclusive end address.
    pub fn end(&self) -> (r: u64)
        requires
            vma_end(*self) <= u64::MAX,
        ensures
            r == vma_end(*self),
    {
        self.start + (self.size_pages as u64) * PAGE_BYTES
    }

    /// Does the area contain `addr`?
    pub fn contains(&self, addr: u64) -> (r: bool)
        ensures
            r == vma_contains(*self, addr as int),
    {
        let end = end_wide(self);
        addr >= self.start && (addr as u128) < end
    }

    /// Is the area well formed: page-aligned and inside user space?
    pub fn is_valid(&self) -> (r: bool)
        ensures
            r == vma_wf(*self),
    {
        let end = end_wide(self);
        self.start % PAGE_BYTES == 0 && end <= USER_SPACE_END as u128
    }

    /// Do the two areas share an address?
    pub fn overlaps(&self, other: &Vma) -> (r: bool)
        ensures
            r == vmas_overlap(*self, *other),
    {
        let e1 = end_wide(self);
        let e2 = end_wide(other);
        (self.start as u128) < e2 && (other.start as u128) < e1
    }
}

/// Why an area was not registered.
#[derive(Clone, Copy, Debug, PartialEq, Eq, Structural)]
pub enum VmaError {
    /// Not page-aligned, or not inside user space.
    Invalid,
    /// Shares an address with a registered area.
    Overlap,
    /// All slots are in use.
    Full,
    /// The process id is beyond the registry.
    BadPid,
}

/// What registering `vma` in the slots `before` gives: refused, with the
/// slots unchanged, when it is invalid, overlaps a registered area, or no
/// slot is free; otherwise it takes the first free slot.
pub open spec fn add_outcome(before: Seq<Option<Vma>>, vma: Vma, after: Seq<Option<Vma>>, r: Result<(), VmaError>) -> bool {
    &&& r == Err::<(), VmaError>(VmaError::Invalid) <==> !vma_wf(vma)
    &&& r == Err::<(), VmaError>(VmaError::Overlap) <==> vma_wf(vma)
            && exists|i: int| 0 <= i < before.len() && (#[trigger] before[i]).is_some()
                && vmas_overlap(before[i].unwrap(), vma)
    &&& r == Err::<(), VmaError>(VmaError::Full) <==> vma_wf(vma)
            && (forall|i: int| 0 <= i < before.len() && (#[trigger] before[i]).is_some()
                ==> !vmas_overlap(before[i].unwrap(), vma))
            && (forall|i: int| 0 <= i < before.len() ==> (#[trigger] before[i]).is_some())
    &&& r != Err::<(), VmaError>(VmaError::BadPid)
    &&& r.is_err() ==> after == before
    &&& r.is_ok() ==> exists|i: int| 0 <= i < before.len() && (#[trigger] before[i]).is_none()
            && after == before.update(i, Some(vma))
            && forall|j: int| 0 <= j < i ==> (#[trigger] before[j]).is_some()
}

/// The areas of one address space, in a fixed array of slots.
pub struct VmaList {
    entries: Vec<Option<Vma>>,
}

impl VmaList {
    pub closed spec fn slots(&self) -> Seq<Option<Vma>> {
        self.entries@
    }

    /// Is `v` registered?
    pub open spec fn has(&self, v: Vma) -> bool {
        exists|i: int| 0 <= i < self.slots().len() && #[trigger] self.slots()[i] == Some(v)
    }

    /// Sixteen slots; every area well formed; no two overlap.
    pub open spec fn wf(&self) -> bool {
        &&& self.slots().len() == MAX_VMAS_PER_PROCESS
        &&& forall|i: int| 0 <= i < self.slots().len() && (#[trigger] self.slots()[i]).is_some()
                ==> vma_wf(self.slots()[i].unwrap())
        &&& forall|i: int, j: int| 0 <= i < self.slots().len() && 0 <= j < self.slots().len() && i != j
                && (#[trigger] self.slots()[i]).is_some() && (#[trigger] self.slots()[j]).is_some()
                ==> !vmas_overlap(self.slots()[i].unwrap(), self.slots()[j].unwrap())
    }

    pub open spec fn is_empty_list(&self) -> bool {
        forall|i: int| 0 <= i < self.slots().len() ==> (#[trigger] self.slots()[i]).is_none()
    }

    /// A list with no areas.
    pub fn new() -> (r: Self)
        ensures
            r.wf(),
            r.is_empty_list(),
    {
        let mut entries: Vec<Option<Vma>> = Vec::new();
        let mut i: usize = 0;
        while i < MAX_VMAS_PER_PROCESS
            invariant
                i <= MAX_VMAS_PER_PROCESS,
                entries@.len() == i,
                forall|j: int| 0 <= j < i ==> (#[trigger] entries@[j]).is_none(),
            decreases MAX_VMAS_PER_PROCESS - i,
        {
            entries.push(None);
            i = i + 1;
        }
        VmaList { entries }
    }

    /// Registers `vma` in the first free slot. Refused, changing nothing, when
    /// it is misaligned or leaves user space, overlaps a registered area, or
    /// no slot is free.
    pub fn add(&mut self, vma: Vma) -> (r: Result<(), VmaError>)
        requires
            old(self).wf(),
        ensures
            final(self).wf(),
            add_outcome(old(self).slots(), vma, final(self).slots(), r),
    {
        if !vma.is_valid() {
            return Err(VmaError::Invalid);
        }
        let mut i: usize = 0;
        let mut free: Option<usize> = None;
        while i < MAX_VMAS_PER_PROCESS
            invariant
                i <= MAX_VMAS_PER_PROCESS,
                vma_wf(vma),
                self.wf(),
                self.slots() == old(self).slots(),
                forall|j: int| 0 <= j < i && (#[trigger] self.slots()[j]).is_some()
                    ==> !vmas_overlap(self.slots()[j].unwrap(), vma),
                free.is_none() ==> forall|j: int| 0 <= j < i ==> (#[trigger] self.slots()[j]).is_some(),
                free.is_some() ==> free.unwrap() < i && self.slots()[free.unwrap() as int].is_none()
                    && forall|j: int| 0 <= j < free.unwrap() ==> (#[trigger] self.slots()[j]).is_some(),
            decreases MAX_VMAS_PER_PROCESS - i,
        {
            match self.entries[i] {
                Some(v) => {
                    if v.overlaps(&vma) {
                        assert(self.slots()[i as int] == Some(v));
                        return Err(VmaError::Overlap);
                    }
                },
                None => {
                    if free.is_none() {
                        free = Some(i);
                    }
                },
            }
            i = i + 1;
        }
        match free {
            None => Err(VmaError::Full),
            Some(f) => {
                self.entries.set(f, Some(vma));
                Ok(())
            },
        }
    }

    /// The area that contains `addr`, if any.
    pub fn find(&self, addr: u64) -> (r: Option<Vma>)
        requires
            self.wf(),
        ensures
            r.is_some() ==> self.has(r.unwrap()) && vma_contains(r.unwrap(), addr as int),
            r.is_none() ==> forall|i: int| 0 <= i < self.slots().len() && (#[trigger] self.slots()[i]).is_some()
                ==> !vma_contains(self.slots()[i].unwrap(), addr as int),
    {
        let mut i: usize = 0;
        while i < self.entries.len()
            invariant
                i <= self.slots().len(),
                self.slots() == self.entries@,
                forall|j: int| 0 <= j < i && (#[trigger] self.slots()[j]).is_some()
                    ==> !vma_contains(self.slots()[j].unwrap(), addr as int),
            decreases self.slots().len() - i,
        {
            match self.entries[i] {
                Some(v) => {
                    if v.contains(addr) {
                        assert(self.slots()[i as int] == Some(v));
                        return Some(v);
                    }
                },
                None => {},
            }
            i = i + 1;
        }
        None
    }

    /// Removes every area.
    pub fn clear(&mut self)
        requires
            old(self).wf(),
        ensures
            final(self).wf(),
            final(self).is_empty_list(),
    {
        let mut i: usize = 0;
        while i < MAX_VMAS_PER_PROCESS
            invariant
                i <= MAX_VMAS_PER_PROCESS,
                self.slots().len() == MAX_VMAS_PER_PROCESS,
                forall|j: int| 0 <= j < i ==> (#[trigger] self.slots()[j]).is_none(),
                forall|j: int| 0 <= j < MAX_VMAS_PER_PROCESS && (#[trigger] self.slots()[j]).is_some()
                    ==> self.slots()[j] == old(self).slots()[j],
                old(self).wf(),
            decreases MAX_VMAS_PER_PROCESS - i,
        {
            self.entries.set(i, None);
            i = i + 1;
        }
    }

    /// The registered areas, in slot order.
    pub fn iter(&self) -> (r: Vec<Vma>)
        requires
            self.wf(),
        ensures
            forall|k: int| 0 <= k < r@.len() ==> self.has(#[trigger] r@[k]),
            forall|i: int| 0 <= i < self.slots().len() && (#[trigger] self.slots()[i]).is_some()
                ==> r@.contains(self.slots()[i].unwrap()),
    {
        let mut r: Vec<Vma> = Vec::new();
        let mut i: usize = 0;
        while i < self.entries.len()
            invariant
                i <= self.slots().len(),
                self.slots() == self.entries@,
                forall|k: int| 0 <= k < r@.len() ==> self.has(#[trigger] r@[k]),
                forall|j: int| 0 <= j < i && (#[trigger] self.slots()[j]).is_some()
                    ==> r@.contains(self.slots()[j].unwrap()),
            decreases self.slots().len() - i,
        {
            match self.entries[i] {
                Some(v) => {
                    let ghost r0 = r@;
                    r.push(v);
                    proof {
                        assert(self.slots()[i as int] == Some(v));
                        assert(r@[r@.len() - 1] == v);
                        assert forall|j: int| 0 <= j < i + 1 && (#[trigger] self.slots()[j]).is_some()
                            implies r@.contains(self.slots()[j].unwrap()) by {
                            if j < i {
                                assert(r0.contains(self.slots()[j].unwrap()));
                                let k = choose|k: int| 0 <= k < r0.len() && r0[k] == self.slots()[j].unwrap();
                                assert(r@[k] == r0[k]);
                            }
                        }
                    }
                },
                None => {},
            }
            i = i + 1;
        }
        r
    }
}

/// The areas of every process, indexed by process id.
pub struct VmaTable {
    lists: Vec<VmaList>,
}

impl VmaTable {
    pub closed spec fn list(&self, pid: int) -> VmaList {
        self.lists@[pid]
    }

    pub closed spec fn sized(&self) -> bool {
        self.lists@.len() == MAX_PROCESSES
    }

    /// One well-formed list per process id.
    pub open spec fn wf(&self) -> bool {
        &&& self.sized()
        &&& forall|i: int| 0 <= i < MAX_PROCESSES ==> (#[trigger] self.list(i)).wf()
    }

    /// A registry with no areas.
    pub fn new() -> (r: Self)
        ensures
            r.wf(),
            forall|p: int| 0 <= p < MAX_PROCESSES ==> (#[trigger] r.list(p)).is_empty_list(),
    {
        let mut lists: Vec<VmaList> = Vec::new();
        let mut i: usize = 0;
        while i < MAX_PROCESSES
            invariant
                i <= MAX_PROCESSES,
                lists@.len() == i,
                forall|j: int| 0 <= j < i ==> (#[trigger] lists@[j]).wf() && lists@[j].is_empty_list(),
            decreases MAX_PROCESSES - i,
        {
            lists.push(VmaList::new());
            i = i + 1;
        }
        VmaTable { lists }
    }
}

/// Registers `vma` for process `pid`.
pub fn register_vma(table: &mut VmaTable, pid: usize, vma: Vma) -> (r: Result<(), VmaError>)
    requires
        old(table).wf(),
    ensures
        final(table).wf(),
        pid >= MAX_PROCESSES ==> r == Err::<(), VmaError>(VmaError::BadPid)
            && forall|p: int| 0 <= p < MAX_PROCESSES ==> #[trigger] final(table).list(p) == old(table).list(p),
        pid < MAX_PROCESSES ==> add_outcome(old(table).list(pid as int).slots(), vma,
            final(table).list(pid as int).slots(), r),
        r.is_ok() ==> final(table).list(pid as int).has(vma),
        forall|p: int| 0 <= p < MAX_PROCESSES && p != pid ==> #[trigger] final(table).list(p) == old(table).list(p),
{
    if pid >= MAX_PROCESSES {
        return Err(VmaError::BadPid);
    }
    proof {
        assert(table.list(pid as int).wf());
        assert(table.list(pid as int) == table.lists@[pid as int]);
    }
    let r = table.lists[pid].add(vma);
    proof {
        assert forall|i: int| 0 <= i < MAX_PROCESSES implies (#[trigger] table.list(i)).wf() by {
            if i != pid {
                assert(table.list(i) == old(table).list(i));
                assert(old(table).list(i).wf());
            }
        }
        if r.is_ok() {
            let i = choose|i: int| 0 <= i < old(table).list(pid as int).slots().len()
                && (#[trigger] old(table).list(pid as int).slots()[i]).is_none()
                && table.list(pid as int).slots() == old(table).list(pid as int).slots().update(i, Some(vma))
                && forall|j: int| 0 <= j < i ==> (#[trigger] old(table).list(pid as int).slots()[j]).is_some();
            assert(table.list(pid as int).slots()[i] == Some(vma));
        }
    }
    r
}

/// The area of process `pid` that contains `addr`.
pub fn find_vma(table: &VmaTable, pid: usize, addr: u64) -> (r: Option<Vma>)
    requires
        table.wf(),
    ensures
        pid >= MAX_PROCESSES ==> r.is_none(),
        r.is_some() ==> table.list(pid as int).has(r.unwrap()) && vma_contains(r.unwrap(), addr as int),
        pid < MAX_PROCESSES && r.is_none() ==> forall|i: int| 0 <= i < MAX_VMAS_PER_PROCESS
            && (#[trigger] table.list(pid as int).slots()[i]).is_some()
            ==> !vma_contains(table.list(pid as int).slots()[i].unwrap(), addr as int),
{
    if pid >= MAX_PROCESSES {
        return None;
    }
    table.lists[pid].find(addr)
}

/// Removes the areas of process `pid` (ignored past the registry).
pub fn clear_vmas(table: &mut VmaTable, pid: usize)
    requires
        old(table).wf(),
    ensures
        final(table).wf(),
        pid < MAX_PROCESSES ==> final(table).list(pid as int).is_empty_list(),
        forall|p: int| 0 <= p < MAX_PROCESSES && p != pid ==> #[trigger] final(table).list(p) == old(table).list(p),
{
    if pid < MAX_PROCESSES {
        proof {
            assert(table.list(pid as int).wf());
        }
        table.lists[pid].clear();
        proof {
            assert forall|i: int| 0 <= i < MAX_PROCESSES implies (#[trigger] table.list(i)).wf() by {
                if i != pid {
                    assert(old(table).list(i).wf());
                }
            }
        }
    }
}

/// The areas of process `pid`, in slot order (none past the registry).
pub fn dump_vmas(table: &VmaTable, pid: usize) -> (r: Vec<Vma>)
    requires
        table.wf(),
    ensures
        pid >= MAX_PROCESSES ==> r@.len() == 0,
        pid < MAX_PROCESSES ==> forall|k: int| 0 <= k < r@.len() ==> table.list(pid as int).has(#[trigger] r@[k]),
        pid < MAX_PROCESSES ==> forall|i: int| 0 <= i < MAX_VMAS_PER_PROCESS
            && (#[trigger] table.list(pid as int).slots()[i]).is_some()
            ==> r@.contains(table.list(pid as int).slots()[i].unwrap()),
{
    if pid >= MAX_PROCESSES {
        return Vec::new();
    }
    table.lists[pid].iter()
}

} // verus!
