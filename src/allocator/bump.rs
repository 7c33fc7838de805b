use vstd::prelude::*;
use vstd::arithmetic::div_mod::{lemma_fundamental_div_mod, lemma_mod_multiples_basic};

verus! {

/// The smallest multiple of `align` at or above `addr`.
pub open spec fn up_to_multiple(addr: int, align: int) -> int {
    if addr % align == 0 { addr } else { addr + (align - addr % align) }
}

/// The smallest multiple of `align` at or above `addr`.
pub fn align_up(addr: usize, align: usize) -> (r: usize)
    requires
        align > 0,
        addr + align - 1 <= usize::MAX,
    ensures
        r % align == 0,
        addr <= r < addr + align,
        r == up_to_multiple(addr as int, align as int),
{
    let rem = addr % align;
    if rem == 0 {
        addr
    } else {
        proof {
            lemma_fundamental_div_mod(addr as int, align as int);
            let q = addr as int / align as int;
            assert(addr + (align - rem) == (q + 1) * align) by (nonlinear_arith)
                requires addr as int == align * q + rem;
            lemma_mod_multiples_basic(q + 1, align as int);
        }
        addr + (align - rem)
    }
}

/// The boot heap: hands out [heap_start, heap_end) front to back and never
/// takes memory back.
pub struct BumpAllocator {
    heap_start: usize,
    heap_end: usize,
    next: usize,
}

impl BumpAllocator {
    pub closed spec fn start(&self) -> nat {
        self.heap_start as nat
    }

    pub closed spec fn end(&self) -> nat {
        self.heap_end as nat
    }

    pub closed spec fn next_free(&self) -> nat {
        self.next as nat
    }

    pub open spec fn wf(&self) -> bool {
        self.start() <= self.next_free() <= self.end()
    }

    /// An allocator with no heap yet.
    pub fn new() -> (r: Self)
        ensures
            r.wf(),
            r.start() == 0 && r.end() == 0 && r.next_free() == 0,
    {
        BumpAllocator { heap_start: 0, heap_end: 0, next: 0 }
    }

    /// Gives it the heap [heap_start, heap_start + heap_size).
    pub fn init(&mut self, heap_start: usize, heap_size: usize)
        requires
            heap_start + heap_size <= usize::MAX,
        ensures
            final(self).wf(),
            final(self).start() == heap_start,
            final(self).end() == heap_start + heap_size,
            final(self).next_free() == heap_start,
    {
        self.heap_start = heap_start;
        self.heap_end = heap_start + heap_size;
        self.next = heap_start;
    }

    /// Bytes handed out so far (alignment padding included).
    pub fn used_internal(&self) -> (r: usize)
        requires
            self.wf(),
        ensures
            r == self.next_free() - self.start(),
    {
        self.next - self.heap_start
    }

    /// Size of the heap.
    pub fn size_internal(&self) -> (r: usize)
        requires
            self.wf(),
        ensures
            r == self.end() - self.start(),
    {
        self.heap_end - self.heap_start
    }

    pub fn heap_end_internal(&self) -> (r: usize)
        ensures
            r == self.end(),
    {
        self.heap_end
    }

    /// Moves the end of the heap (after more pages were mapped after it).
    pub fn expand_internal(&mut self, new_end: usize)
        requires
            old(self).wf(),
            new_end >= old(self).next_free(),
        ensures
            final(self).wf(),
            final(self).end() == new_end,
            final(self).start() == old(self).start(),
            final(self).next_free() == old(self).next_free(),
    {
        self.heap_end = new_end;
    }

    /// Allocates `size` bytes aligned to `align`: the next free address,
    /// rounded up. `None` when the heap is not set up or would overflow.
    pub fn allocate(&mut self, size: usize, align: usize) -> (r: Option<usize>)
        requires
            old(self).wf(),
            align > 0,
        ensures
            final(self).wf(),
            final(self).start() == old(self).start(),
            final(self).end() == old(self).end(),
            (old(self).start() == 0 || old(self).end() == 0) ==> r.is_none(),
            r.is_none() ==> final(self).next_free() == old(self).next_free(),
            r.is_some() ==> ({
                let a = r.unwrap();
                &&& a % align == 0
                &&& old(self).next_free() <= a < old(self).next_free() + align
                &&& a + size <= old(self).end()
                &&& final(self).next_free() == a + size
            }),
            old(self).start() != 0 && old(self).end() != 0 && old(self).next_free() + align - 1 <= usize::MAX
                && up_to_multiple(old(self).next_free() as int, align as int) + size <= old(self).end()
                ==> r.is_some(),
    {
        if self.heap_start == 0 || self.heap_end == 0 {
            return None;
        }
        if self.next > usize::MAX - (align - 1) {
            return None;
        }
        let aligned = align_up(self.next, align);
        let new_next = match aligned.checked_add(size) {
            Some(n) => n,
            None => return None,
        };
        if new_next > self.heap_end {
            return None;
        }
        self.next = new_next;
        Some(aligned)
    }
}

/// (used, size) of the heap.
pub fn heap_stats(a: &BumpAllocator) -> (r: (usize, usize))
    requires
        a.wf(),
    ensures
        r.0 == a.next_free() - a.start(),
        r.1 == a.end() - a.start(),
{
    (a.used_internal(), a.size_internal())
}

/// The end of the heap.
pub fn heap_end(a: &BumpAllocator) -> (r: usize)
    ensures
        r == a.end(),
{
    a.heap_end_internal()
}

/// Moves the end of the heap to `new_end`.
pub fn expand_heap_size(a: &mut BumpAllocator, new_end: usize)
    requires
        old(a).wf(),
        new_end >= old(a).next_free(),
    ensures
        final(a).wf(),
        final(a).end() == new_end,
{
    a.expand_internal(new_end);
}

} // verus!
