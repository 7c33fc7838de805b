use vstd::prelude::*;
use vstd::arithmetic::power2::{pow2, lemma2_to64, lemma_pow2_pos, lemma_pow2_adds, lemma_pow2_unfold, lemma_pow2_strictly_increases};
use vstd::arithmetic::div_mod::{lemma_fundamental_div_mod, lemma_mod_multiples_basic, lemma_fundamental_div_mod_converse};
use vstd::bits::{lemma_u64_shl_is_mul, lemma_u64_pow2_no_overflow};

verus! {

/// Smallest block: one 4 KiB frame.
pub const MIN_ORDER: usize = 12;
/// Largest block: 256 MiB.
pub const MAX_ORDER: usize = 28;
pub const NUM_ORDERS: usize = 17;
/// Physical addresses are below 2^52 on x86_64.
pub const MAX_PHYS_ADDR: u64 = 0x10_0000_0000_0000;

// ---------------------------------------------------------------------------
// Arithmetic on block sizes
// ---------------------------------------------------------------------------

pub open spec fn aligned(a: int, order: nat) -> bool {
    a % (pow2(order) as int) == 0
}

/// The buddy of the block at `a` of the given order: `a XOR 2^order` for an
/// aligned `a`, written as the neighbour in the pair of halves of the parent.
pub open spec fn buddy_of(a: int, order: nat) -> int {
    if (a / (pow2(order) as int)) % 2 == 0 {
        a + pow2(order)
    } else {
        a - pow2(order)
    }
}

pub open spec fn blocks_disjoint(a: (u64, nat), b: (u64, nat)) -> bool {
    a.0 + pow2(a.1) <= b.0 || b.0 + pow2(b.1) <= a.0
}

/// 2^order as a u64.
pub fn block_size(order: usize) -> (r: u64)
    requires
        order < 64,
    ensures
        r as nat == pow2(order as nat),
        r > 0,
{
    proof {
        lemma_u64_pow2_no_overflow(order as nat);
        lemma_u64_shl_is_mul(1, order as u64);
    }
    1u64 << (order as u64)
}

proof fn lemma_aligned_smaller(a: int, lo: nat, hi: nat)
    requires
        lo <= hi,
        aligned(a, hi),
    ensures
        aligned(a, lo),
{
    lemma_pow2_adds(lo, (hi - lo) as nat);
    lemma_pow2_pos(lo);
    lemma_pow2_pos((hi - lo) as nat);
    let p = pow2(lo) as int;
    let q = pow2((hi - lo) as nat) as int;
    assert(lo + (hi - lo) as nat == hi);
    assert(p * q > 0) by (nonlinear_arith) requires p > 0, q > 0;
    lemma_fundamental_div_mod(a, p * q);
    let t = a / (p * q);
    assert(a == (t * q) * p) by (nonlinear_arith)
        requires a == (p * q) * t + a % (p * q), a % (p * q) == 0;
    lemma_mod_multiples_basic(t * q, p);
}

proof fn lemma_aligned_add(a: int, order: nat)
    requires
        aligned(a, order),
    ensures
        aligned(a + pow2(order), order),
{
    lemma_pow2_pos(order);
    let p = pow2(order) as int;
    lemma_fundamental_div_mod(a, p);
    let t = a / p;
    assert(a + p == (t + 1) * p) by (nonlinear_arith)
        requires a == p * t + a % p, a % p == 0;
    lemma_mod_multiples_basic(t + 1, p);
}

/// Merging an aligned block with its buddy gives a block aligned to twice the size.
proof fn lemma_merge_aligned(a: int, order: nat)
    requires
        a >= 0,
        aligned(a, order),
    ensures
        (a / (pow2(order) as int)) % 2 == 0 ==> aligned(a, order + 1),
        (a / (pow2(order) as int)) % 2 != 0 ==> a >= pow2(order) && aligned(a - pow2(order), order + 1),
{
    lemma_pow2_pos(order);
    lemma_pow2_unfold(order + 1);
    let p = pow2(order) as int;
    assert(pow2(order + 1) as int == 2 * p);
    lemma_fundamental_div_mod(a, p);
    let q = a / p;
    assert(q >= 0) by (nonlinear_arith) requires a >= 0, p > 0, q == a / p;
    lemma_fundamental_div_mod(q, 2);
    let r = q / 2;
    if q % 2 == 0 {
        assert(a == r * (2 * p)) by (nonlinear_arith)
            requires a == p * q + a % p, a % p == 0, q == 2 * r + q % 2, q % 2 == 0;
        lemma_mod_multiples_basic(r, 2 * p);
    } else {
        assert(a - p == r * (2 * p) && a >= p) by (nonlinear_arith)
            requires a == p * q + a % p, a % p == 0, q == 2 * r + q % 2, q % 2 == 1, r >= 0, p > 0;
        lemma_mod_multiples_basic(r, 2 * p);
    }
}

// ---------------------------------------------------------------------------
// The free lists as mathematical values
// ---------------------------------------------------------------------------

/// Total bytes held by the free lists from index `i` on.
pub open spec fn bytes_from(lists: Seq<Seq<u64>>, i: nat) -> nat
    decreases NUM_ORDERS - i,
{
    if i >= NUM_ORDERS || i >= lists.len() {
        0
    } else {
        lists[i as int].len() * pow2(i + MIN_ORDER as nat) + bytes_from(lists, i + 1)
    }
}

pub open spec fn free_bytes_of(lists: Seq<Seq<u64>>) -> nat {
    bytes_from(lists, 0)
}

/// The free blocks, as (address, order) pairs.
pub open spec fn free_set_of(lists: Seq<Seq<u64>>) -> Set<(u64, nat)> {
    Set::new(|b: (u64, nat)| MIN_ORDER <= b.1 <= MAX_ORDER && lists[b.1 - MIN_ORDER].contains(b.0))
}

pub open spec fn all_disjoint(s: Set<(u64, nat)>) -> bool {
    forall|a: (u64, nat), b: (u64, nat)| #[trigger] s.contains(a) && #[trigger] s.contains(b) && a != b
        ==> blocks_disjoint(a, b)
}

pub open spec fn disjoint_from_all(s: Set<(u64, nat)>, blk: (u64, nat)) -> bool {
    forall|a: (u64, nat)| #[trigger] s.contains(a) ==> blocks_disjoint(a, blk)
}

/// Every free block is aligned to its size, lies below MAX_PHYS_ADDR, appears
/// once, and no two free blocks overlap.
pub open spec fn lists_wf(lists: Seq<Seq<u64>>) -> bool {
    &&& lists.len() == NUM_ORDERS
    &&& forall|i: int, j: int| 0 <= i < NUM_ORDERS && 0 <= j < lists[i].len() ==>
            aligned(#[trigger] lists[i][j] as int, (i + MIN_ORDER) as nat)
            && lists[i][j] + pow2((i + MIN_ORDER) as nat) <= MAX_PHYS_ADDR
    &&& forall|i: int| 0 <= i < NUM_ORDERS ==> (#[trigger] lists[i]).no_duplicates()
    &&& all_disjoint(free_set_of(lists))
}

proof fn lemma_bytes_update(lists: Seq<Seq<u64>>, k: int, s: Seq<u64>, i: nat)
    requires
        lists.len() == NUM_ORDERS,
        0 <= k < NUM_ORDERS,
        i <= NUM_ORDERS,
    ensures
        bytes_from(lists.update(k, s), i) as int == bytes_from(lists, i) as int
            + (if k >= i { (s.len() as int - lists[k].len() as int) * pow2((k + MIN_ORDER) as nat) } else { 0int }),
    decreases NUM_ORDERS - i,
{
    if i < NUM_ORDERS {
        lemma_bytes_update(lists, k, s, i + 1);
        let p = pow2((k + MIN_ORDER) as nat) as int;
        if k == i {
            assert(s.len() * p - lists[k].len() * p == (s.len() as int - lists[k].len() as int) * p)
                by (nonlinear_arith);
        }
    }
}

proof fn lemma_push_contains(s: Seq<u64>, a: u64, x: u64)
    ensures
        s.push(a).contains(x) <==> (s.contains(x) || x == a),
{
    if s.contains(x) {
        let i = choose|i: int| 0 <= i < s.len() && s[i] == x;
        assert(s.push(a)[i] == x);
    }
    if x == a {
        assert(s.push(a)[s.len() as int] == a);
    }
    if s.push(a).contains(x) {
        let i = choose|i: int| 0 <= i < s.push(a).len() && s.push(a)[i] == x;
        if i < s.len() {
            assert(s[i] == x);
        }
    }
}

proof fn lemma_remove_contains(s: Seq<u64>, i: int, x: u64)
    requires
        0 <= i < s.len(),
        s.no_duplicates(),
    ensures
        s.remove(i).contains(x) <==> (s.contains(x) && x != s[i]),
        s.remove(i).no_duplicates(),
{
    let r = s.remove(i);
    assert forall|j: int| 0 <= j < r.len() implies r[j] == (if j < i { s[j] } else { s[j + 1] }) by {}
    if s.contains(x) && x != s[i] {
        let j = choose|j: int| 0 <= j < s.len() && s[j] == x;
        if j < i {
            assert(r[j] == x);
        } else {
            assert(j != i);
            assert(r[j - 1] == x);
        }
    }
    if r.contains(x) {
        let j = choose|j: int| 0 <= j < r.len() && r[j] == x;
        if j < i {
            assert(s[j] == x);
        } else {
            assert(s[j + 1] == x);
        }
    }
}

/// Pushing a fresh block keeps the lists well formed and adds it to the free set.
#[verifier::rlimit(40)]
proof fn lemma_push_block(lists: Seq<Seq<u64>>, k: int, a: u64)
    requires
        lists_wf(lists),
        0 <= k < NUM_ORDERS,
        aligned(a as int, (k + MIN_ORDER) as nat),
        a + pow2((k + MIN_ORDER) as nat) <= MAX_PHYS_ADDR,
        disjoint_from_all(free_set_of(lists), (a, (k + MIN_ORDER) as nat)),
    ensures
        lists_wf(lists.update(k, lists[k].push(a))),
        free_set_of(lists.update(k, lists[k].push(a))) == free_set_of(lists).insert((a, (k + MIN_ORDER) as nat)),
        free_bytes_of(lists.update(k, lists[k].push(a))) == free_bytes_of(lists) + pow2((k + MIN_ORDER) as nat),
{
    let o = (k + MIN_ORDER) as nat;
    let n = lists.update(k, lists[k].push(a));
    lemma_bytes_update(lists, k, lists[k].push(a), 0);
    lemma_pow2_pos(o);
    assert((lists[k].push(a).len() as int - lists[k].len() as int) * pow2(o) == pow2(o) as int) by {
        assert(lists[k].push(a).len() as int - lists[k].len() as int == 1);
    }
    assert forall|x: u64| #[trigger] lists[k].push(a).contains(x) <==> (lists[k].contains(x) || x == a) by {
        lemma_push_contains(lists[k], a, x);
    }
    assert(!lists[k].contains(a)) by {
        if lists[k].contains(a) {
            assert(free_set_of(lists).contains((a, o)));
        }
    }
    assert(free_set_of(n) =~= free_set_of(lists).insert((a, o)));
    assert forall|i: int, j: int| 0 <= i < NUM_ORDERS && 0 <= j < n[i].len() implies
        aligned(#[trigger] n[i][j] as int, (i + MIN_ORDER) as nat)
        && n[i][j] + pow2((i + MIN_ORDER) as nat) <= MAX_PHYS_ADDR by {
        if i == k && j == lists[k].len() {
        } else {
            assert(n[i][j] == lists[i][j]);
        }
    }
    assert forall|i: int| 0 <= i < NUM_ORDERS implies (#[trigger] n[i]).no_duplicates() by {
        if i == k {
            assert forall|x: int, y: int| 0 <= x < n[i].len() && 0 <= y < n[i].len() && x != y
                implies n[i][x] != n[i][y] by {
                if x < lists[k].len() && y < lists[k].len() {
                } else if x < lists[k].len() {
                    assert(lists[k].contains(n[i][x]));
                } else {
                    assert(lists[k].contains(n[i][y]));
                }
            }
        }
    }
}

/// Removing the block at position `j` of list `k` keeps the lists well formed.
#[verifier::rlimit(40)]
proof fn lemma_remove_block(lists: Seq<Seq<u64>>, k: int, j: int)
    requires
        lists_wf(lists),
        0 <= k < NUM_ORDERS,
        0 <= j < lists[k].len(),
    ensures
        lists_wf(lists.update(k, lists[k].remove(j))),
        free_set_of(lists.update(k, lists[k].remove(j))) == free_set_of(lists).remove((lists[k][j], (k + MIN_ORDER) as nat)),
        free_bytes_of(lists.update(k, lists[k].remove(j))) + pow2((k + MIN_ORDER) as nat) == free_bytes_of(lists),
{
    let o = (k + MIN_ORDER) as nat;
    let s = lists[k].remove(j);
    let n = lists.update(k, s);
    lemma_bytes_update(lists, k, s, 0);
    assert((s.len() as int - lists[k].len() as int) * pow2(o) == -(pow2(o) as int)) by {
        assert(s.len() as int - lists[k].len() as int == -1);
    }
    assert forall|x: u64| #[trigger] s.contains(x) <==> (lists[k].contains(x) && x != lists[k][j]) by {
        lemma_remove_contains(lists[k], j, x);
    }
    lemma_remove_contains(lists[k], j, 0);
    assert(free_set_of(n) =~= free_set_of(lists).remove((lists[k][j], o)));
    assert forall|i: int, m: int| 0 <= i < NUM_ORDERS && 0 <= m < n[i].len() implies
        aligned(#[trigger] n[i][m] as int, (i + MIN_ORDER) as nat)
        && n[i][m] + pow2((i + MIN_ORDER) as nat) <= MAX_PHYS_ADDR by {
        if i == k {
            if m < j {
                assert(n[i][m] == lists[i][m]);
            } else {
                assert(n[i][m] == lists[i][m + 1]);
            }
        } else {
            assert(n[i][m] == lists[i][m]);
        }
    }
    assert forall|i: int| 0 <= i < NUM_ORDERS implies (#[trigger] n[i]).no_duplicates() by {
        if i != k {
            assert(n[i] == lists[i]);
        }
    }
}

// ---------------------------------------------------------------------------
// The allocator
// ---------------------------------------------------------------------------

/// Why a block handed back to the allocator was refused.
#[derive(Clone, Copy, Debug, PartialEq, Eq, Structural)]
pub enum BuddyError {
    /// The address is not aligned to the block size.
    Misaligned,
    /// The block reaches past the highest physical address.
    OutOfRange,
    /// The block overlaps a block that is already free (a double free).
    DoubleFree,
    /// More bytes would be freed than are currently allocated.
    NotAllocated,
}

/// Physical-frame allocator: one free list of block addresses per order
/// 12..=28; the head of a list is its last element.
pub struct BuddyAllocator {
    free_lists: Vec<Vec<u64>>,
    total_memory: u64,
    allocated: u64,
    held: Ghost<Seq<(u64, nat)>>,
}

/// Smallest index `j >= i` whose list is non-empty, or NUM_ORDERS.
pub open spec fn first_nonempty(lists: Seq<Seq<u64>>, i: nat) -> nat
    decreases NUM_ORDERS - i,
{
    if i >= NUM_ORDERS {
        NUM_ORDERS as nat
    } else if lists[i as int].len() > 0 {
        i
    } else {
        first_nonempty(lists, i + 1)
    }
}

/// The blocks handed out are well placed, never overlap one another, and
/// never overlap a free block.
pub open spec fn held_wf(held: Set<(u64, nat)>, free: Set<(u64, nat)>) -> bool {
    &&& forall|b: (u64, nat)| #[trigger] held.contains(b) ==> MIN_ORDER <= b.1 <= MAX_ORDER
            && aligned(b.0 as int, b.1) && b.0 + pow2(b.1) <= MAX_PHYS_ADDR
    &&& all_disjoint(held)
    &&& forall|a: (u64, nat), b: (u64, nat)| #[trigger] held.contains(a) && #[trigger] free.contains(b)
            ==> blocks_disjoint(a, b)
}

/// Does the block [a, a + 2^order) overlap a free block?
pub open spec fn overlaps_free(s: Set<(u64, nat)>, a: u64, order: nat) -> bool {
    exists|b: (u64, nat)| #[trigger] s.contains(b) && !blocks_disjoint(b, (a, order))
}

/// The block that coalescing (addr, order) ends in: merged with its buddy
/// while the buddy is free, up to MAX_ORDER.
pub open spec fn merge_block(s: Set<(u64, nat)>, a: u64, k: nat) -> (u64, nat)
    decreases MAX_ORDER - k,
{
    if k >= MAX_ORDER || !s.contains((buddy_of(a as int, k) as u64, k)) {
        (a, k)
    } else {
        let b = buddy_of(a as int, k);
        merge_block(s, (if a <= b { a as int } else { b }) as u64, k + 1)
    }
}

/// What a successful `deallocate(addr, order)` does to the free blocks: the
/// merged block is free and covers the freed one; the blocks of orders below
/// `order` or from the merged order up are otherwise unchanged, and no block
/// becomes free but the merged one.
pub open spec fn dealloc_effect(before: Set<(u64, nat)>, addr: u64, order: nat, after: Set<(u64, nat)>) -> bool {
    let m = merge_block(before, addr, order);
    &&& after.contains(m)
    &&& m.0 <= addr && addr + pow2(order) <= m.0 + pow2(m.1)
    &&& order <= m.1 <= MAX_ORDER
    &&& forall|b: (u64, nat)| (b.1 < order || b.1 > m.1 || (b.1 == m.1 && b != m)) ==>
            (#[trigger] after.contains(b) <==> before.contains(b))
    &&& forall|b: (u64, nat)| #[trigger] after.contains(b) ==> before.contains(b) || b == m
}

impl BuddyAllocator {
    /// The free lists, indexed by `order - MIN_ORDER`.
    pub closed spec fn lists(&self) -> Seq<Seq<u64>> {
        self.free_lists@.map_values(|l: Vec<u64>| l@)
    }

    pub open spec fn free_set(&self) -> Set<(u64, nat)> {
        free_set_of(self.lists())
    }

    pub open spec fn free_bytes(&self) -> nat {
        free_bytes_of(self.lists())
    }

    /// The blocks handed out by `allocate` and not yet returned.
    pub closed spec fn outstanding(&self) -> Set<(u64, nat)> {
        self.held@.to_set()
    }

    /// Free bytes in blocks of order `order` or more.
    pub closed spec fn free_from(&self, order: nat) -> nat {
        bytes_from(self.lists(), (order - MIN_ORDER) as nat)
    }

    /// Total size of the outstanding blocks.
    pub closed spec fn outstanding_bytes(&self) -> nat {
        seq_bytes(self.held@)
    }

    /// Bytes handed out by `allocate` and not yet returned.
    pub closed spec fn allocated_bytes(&self) -> nat {
        self.allocated as nat
    }

    /// Bytes given to the allocator by `add_region`.
    pub closed spec fn total_bytes(&self) -> nat {
        self.total_memory as nat
    }

    pub open spec fn wf(&self) -> bool {
        &&& lists_wf(self.lists())
        &&& self.free_bytes() + self.allocated_bytes() == self.total_bytes()
        &&& self.total_bytes() <= u64::MAX
        &&& held_wf(self.outstanding(), self.free_set())
        &&& self.ledger_ok()
    }

    /// The allocated-bytes counter is the total size of the outstanding blocks.
    pub closed spec fn ledger_ok(&self) -> bool {
        &&& self.held@.no_duplicates()
        &&& self.allocated_bytes() == seq_bytes(self.held@)
    }

    /// The cases in which `deallocate(addr, order)` refuses the block.
    pub open spec fn dealloc_refused(&self, addr: u64, order: nat) -> bool {
        ||| !aligned(addr as int, order)
        ||| addr + pow2(order) > MAX_PHYS_ADDR
        ||| overlaps_free(self.free_set(), addr, order)
        ||| self.allocated_bytes() < pow2(order)
    }

    /// An allocator that owns no memory yet.
    pub fn new() -> (r: Self)
        ensures
            r.wf(),
            r.free_set() == Set::<(u64, nat)>::empty(),
            r.total_bytes() == 0,
            r.allocated_bytes() == 0,
            r.outstanding() == Set::<(u64, nat)>::empty(),
    {
        let mut free_lists: Vec<Vec<u64>> = Vec::new();
        let mut i: usize = 0;
        while i < NUM_ORDERS
            invariant
                i <= NUM_ORDERS,
                free_lists@.len() == i,
                forall|j: int| 0 <= j < i ==> (#[trigger] free_lists@[j])@.len() == 0,
            decreases NUM_ORDERS - i,
        {
            free_lists.push(Vec::new());
            i = i + 1;
        }
        let r = BuddyAllocator { free_lists, total_memory: 0, allocated: 0, held: Ghost(Seq::empty()) };
        proof {
            let l = r.lists();
            assert forall|j: int| 0 <= j < NUM_ORDERS implies (#[trigger] l[j]).len() == 0 by {
                assert(l[j] == free_lists@[j]@);
            }
            assert(free_set_of(l) =~= Set::<(u64, nat)>::empty());
            lemma_bytes_zero(l, 0);
        }
        r
    }

    /// Total bytes handed to the allocator.
    pub fn total_memory(&self) -> (r: u64)
        ensures
            r as nat == self.total_bytes(),
    {
        self.total_memory
    }

    /// Bytes currently handed out.
    pub fn allocated(&self) -> (r: u64)
        ensures
            r as nat == self.allocated_bytes(),
    {
        self.allocated
    }

    /// Pushes a block onto its order's list (it becomes the head).
    fn add_block(&mut self, order: usize, addr: u64)
        requires
            old(self).wf() || lists_wf(old(self).lists()),
            MIN_ORDER <= order <= MAX_ORDER,
            aligned(addr as int, order as nat),
            addr + pow2(order as nat) <= MAX_PHYS_ADDR,
            disjoint_from_all(old(self).free_set(), (addr, order as nat)),
        ensures
            lists_wf(final(self).lists()),
            final(self).lists() == old(self).lists().update(order - MIN_ORDER,
                old(self).lists()[order - MIN_ORDER].push(addr)),
            final(self).free_set() == old(self).free_set().insert((addr, order as nat)),
            final(self).free_bytes() == old(self).free_bytes() + pow2(order as nat),
            final(self).allocated == old(self).allocated,
            final(self).total_memory == old(self).total_memory,
            final(self).held == old(self).held,
    {
        let idx = order - MIN_ORDER;
        proof {
            lemma_push_block(self.lists(), idx as int, addr);
        }
        self.free_lists[idx].push(addr);
        proof {
            assert(self.lists() =~= old(self).lists().update(idx as int, old(self).lists()[idx as int].push(addr)));
        }
    }

    /// Removes the block at position `j` of list `idx`.
    fn remove_at(&mut self, idx: usize, j: usize) -> (r: u64)
        requires
            lists_wf(old(self).lists()),
            idx < NUM_ORDERS,
            j < old(self).lists()[idx as int].len(),
        ensures
            r == old(self).lists()[idx as int][j as int],
            lists_wf(final(self).lists()),
            final(self).lists() == old(self).lists().update(idx as int, old(self).lists()[idx as int].remove(j as int)),
            final(self).free_set() == old(self).free_set().remove((r, (idx + MIN_ORDER) as nat)),
            final(self).free_bytes() + pow2((idx + MIN_ORDER) as nat) == old(self).free_bytes(),
            final(self).allocated == old(self).allocated,
            final(self).total_memory == old(self).total_memory,
            final(self).held == old(self).held,
    {
        proof {
            lemma_remove_block(self.lists(), idx as int, j as int);
            assert(self.lists()[idx as int] == self.free_lists@[idx as int]@);
        }
        let r = self.free_lists[idx].remove(j);
        proof {
            assert(self.lists() =~= old(self).lists().update(idx as int, old(self).lists()[idx as int].remove(j as int)));
        }
        r
    }

    /// Position of `addr` in list `idx`, if it is there.
    fn find_block(&self, idx: usize, addr: u64) -> (r: Option<usize>)
        requires
            self.lists().len() == NUM_ORDERS,
            idx < NUM_ORDERS,
        ensures
            r.is_none() ==> !self.lists()[idx as int].contains(addr),
            r.is_some() ==> r.unwrap() < self.lists()[idx as int].len()
                && self.lists()[idx as int][r.unwrap() as int] == addr,
    {
        let list = &self.free_lists[idx];
        proof {
            assert(self.lists()[idx as int] == list@);
        }
        let mut j: usize = 0;
        while j < list.len()
            invariant
                j <= list@.len(),
                self.lists()[idx as int] == list@,
                forall|m: int| 0 <= m < j ==> list@[m] != addr,
            decreases list@.len() - j,
        {
            if list[j] == addr {
                return Some(j);
            }
            j = j + 1;
        }
        None
    }

    /// Is the block at `addr` of this order on its free list?
    pub fn is_free(&self, order: usize, addr: u64) -> (r: bool)
        requires
            self.wf(),
            MIN_ORDER <= order <= MAX_ORDER,
        ensures
            r == self.free_set().contains((addr, order as nat)),
    {
        let f = self.find_block(order - MIN_ORDER, addr);
        f.is_some()
    }

    /// Allocates a block of 2^order bytes. Takes the head of the order's list;
    /// otherwise splits the head of the smallest larger non-empty list, keeping
    /// the lower half and pushing each upper half (a buddy) on the list below.
    /// Returns `None`, changing nothing, when no list of this order or above
    /// holds a block.
    #[verifier::rlimit(100)]
    pub fn allocate(&mut self, order: usize) -> (r: Option<u64>)
        requires
            old(self).wf(),
            MIN_ORDER <= order <= MAX_ORDER,
        ensures
            final(self).wf(),
            final(self).total_bytes() == old(self).total_bytes(),
            r.is_none() <==> first_nonempty(old(self).lists(), (order - MIN_ORDER) as nat) == NUM_ORDERS,
            r.is_none() <==> forall|b: (u64, nat)| #[trigger] old(self).free_set().contains(b) ==> b.1 < order,
            r.is_none() ==> final(self).lists() == old(self).lists()
                && final(self).allocated_bytes() == old(self).allocated_bytes()
                && final(self).outstanding() == old(self).outstanding()
                && same_memory(*old(self), *final(self)),
            order == MIN_ORDER && r.is_some() ==> took_frame(*old(self), *final(self), r.unwrap()),
            r.is_some() ==> final(self).outstanding() == old(self).outstanding().insert((r.unwrap(), order as nat)),
            old(self).free_from(order as nat) > 0 <==> r.is_some(),
            r.is_some() ==> forall|k: nat| MIN_ORDER <= k <= order ==>
                #[trigger] final(self).free_from(k) + pow2(order as nat) == old(self).free_from(k),
            r.is_some() ==> forall|k: nat| order < k <= MAX_ORDER ==>
                #[trigger] final(self).free_from(k) + pow2(k) >= old(self).free_from(k),
            r.is_some() ==> ({
                let a = r.unwrap();
                let j = first_nonempty(old(self).lists(), (order - MIN_ORDER) as nat);
                let top = (j + MIN_ORDER) as nat;
                &&& j < NUM_ORDERS
                &&& a == old(self).lists()[j as int].last()
                &&& old(self).free_set().contains((a, top))
                &&& forall|b: (u64, nat)| #[trigger] old(self).free_set().contains(b) && b.1 >= order ==> b.1 >= top
                &&& aligned(a as int, order as nat)
                &&& a + pow2(order as nat) <= MAX_PHYS_ADDR
                &&& disjoint_from_all(final(self).free_set(), (a, order as nat))
                &&& final(self).allocated_bytes() == old(self).allocated_bytes() + pow2(order as nat)
                &&& final(self).free_bytes() + pow2(order as nat) == old(self).free_bytes()
                &&& forall|b: (u64, nat)| #[trigger] final(self).free_set().contains(b) <==>
                    ((old(self).free_set().contains(b) && b != (a, top))
                     || (order <= b.1 < top && b.0 == a + pow2(b.1)))
            }),
    {
        let start = order - MIN_ORDER;
        let mut j = start;
        while j < NUM_ORDERS
            invariant
                start <= j <= NUM_ORDERS,
                self.lists() == old(self).lists(),
                self.wf(),
                self.held == old(self).held,
                first_nonempty(self.lists(), start as nat) == first_nonempty(self.lists(), j as nat),
            ensures
                start <= j <= NUM_ORDERS,
                self.lists() == old(self).lists(),
                self.held == old(self).held,
                self.wf(),
                first_nonempty(self.lists(), start as nat) == first_nonempty(self.lists(), j as nat),
                j < NUM_ORDERS ==> self.lists()[j as int].len() > 0,
            decreases NUM_ORDERS - j,
        {
            proof {
                assert(self.lists()[j as int] == self.free_lists@[j as int]@);
            }
            if self.free_lists[j].len() > 0 {
                break;
            }
            j = j + 1;
        }
        if j == NUM_ORDERS {
            proof {
                lemma_first_nonempty(self.lists(), start as nat);
                lemma_bytes_from_zero(self.lists(), start as nat);
                assert forall|b: (u64, nat)| #[trigger] self.free_set().contains(b) implies b.1 < order by {
                    if b.1 >= order {
                        assert(self.lists()[b.1 - MIN_ORDER].len() > 0);
                    }
                }
            }
            return None;
        }
        let ghost old_free = self.free_bytes();
        let ghost old_set = self.free_set();
        let ghost old_lists = self.lists();
        proof {
            assert(self.lists()[j as int] == self.free_lists@[j as int]@);
        }
        let len = self.free_lists[j].len();
        let ghost pre_lists = self.lists();
        let addr = self.remove_at(j, len - 1);
        let top: usize = j + MIN_ORDER;
        proof {
            assert(old_lists[j as int].len() > 0);
            lemma_bytes_from_pos(old_lists, start as nat, j as nat);
            assert(old(self).free_from(order as nat) == bytes_from(old_lists, start as nat));
            assert forall|b: (u64, nat)| #[trigger] old_set.contains(b) && b.1 >= order implies b.1 >= top by {
                lemma_first_nonempty_below(old_lists, start as nat, (b.1 - MIN_ORDER) as nat);
            }
            assert forall|i: nat| i <= NUM_ORDERS implies
                #[trigger] bytes_from(self.lists(), i) + (if i <= j { pow2(top as nat) as int } else { 0int })
                    == bytes_from(old_lists, i) + split_gain(top as nat, top as nat, (i + MIN_ORDER) as nat) by {
                assert(pre_lists == old_lists);
                assert(self.lists() == pre_lists.update(j as int, pre_lists[j as int].remove(len - 1)));
                lemma_bytes_update(pre_lists, j as int, pre_lists[j as int].remove(len - 1), i);
                assert(pre_lists[j as int].remove(len - 1).len() as int - pre_lists[j as int].len() as int == -1);
                assert(split_gain(top as nat, top as nat, (i + MIN_ORDER) as nat) == 0);
            }
            assert(old_set.contains((addr, top as nat)));
            assert(!(forall|b: (u64, nat)| #[trigger] old_set.contains(b) ==> b.1 < order));
            assert(self.free_set().contains((addr, top as nat)) == false);
            assert forall|b: (u64, nat)| #[trigger] self.free_set().contains(b) implies blocks_disjoint(b, (addr, top as nat)) by {
                assert(old_set.contains(b));
            }
            lemma_pow2_pos(order as nat);
            if order < top {
                lemma_pow2_strictly_increases(order as nat, top as nat);
            }
        }
        self.allocated = self.allocated + block_size(order);
        let mut cur = top;
        while cur > order
            invariant
                MIN_ORDER <= order <= MAX_ORDER,
                order <= cur <= top,
                top == j + MIN_ORDER,
                j < NUM_ORDERS,
                lists_wf(self.lists()),
                aligned(addr as int, top as nat),
                addr + pow2(top as nat) <= MAX_PHYS_ADDR,
                disjoint_from_all(self.free_set(), (addr, cur as nat)),
                self.free_bytes() + pow2(cur as nat) == old_free,
                self.allocated_bytes() == old(self).allocated_bytes() + pow2(order as nat),
                self.total_bytes() == old(self).total_bytes(),
                self.held == old(self).held,
                forall|b: (u64, nat)| #[trigger] self.free_set().contains(b) <==>
                    ((old_set.contains(b) && b != (addr, top as nat))
                     || (cur <= b.1 < top && b.0 == addr + pow2(b.1))),
                old_lists.len() == NUM_ORDERS,
                old(self).free_from(order as nat) > 0,
                forall|i: nat| i <= NUM_ORDERS ==>
                    #[trigger] bytes_from(self.lists(), i) + (if i <= j { pow2(top as nat) as int } else { 0int })
                    == bytes_from(old_lists, i) + split_gain(cur as nat, top as nat, (i + MIN_ORDER) as nat),
            decreases cur,
        {
            cur = cur - 1;
            let size = block_size(cur);
            proof {
                lemma_aligned_smaller(addr as int, cur as nat, top as nat);
                lemma_aligned_add(addr as int, cur as nat);
                lemma_pow2_unfold((cur + 1) as nat);
                if cur + 1 < top {
                    lemma_pow2_strictly_increases((cur + 1) as nat, top as nat);
                }
                assert forall|b: (u64, nat)| #[trigger] self.free_set().contains(b) implies
                    blocks_disjoint(b, ((addr + size) as u64, cur as nat)) by {
                    assert(blocks_disjoint(b, (addr, (cur + 1) as nat)));
                }
            }
            let ghost prev = self.lists();
            self.add_block(cur, addr + size);
            proof {
                assert forall|i: nat| i <= NUM_ORDERS implies
                    #[trigger] bytes_from(self.lists(), i) + (if i <= j { pow2(top as nat) as int } else { 0int })
                    == bytes_from(old_lists, i) + split_gain(cur as nat, top as nat, (i + MIN_ORDER) as nat) by {
                    lemma_bytes_update(prev, cur - MIN_ORDER, prev[cur - MIN_ORDER].push((addr + size) as u64), i);
                    assert(prev[cur - MIN_ORDER].push((addr + size) as u64).len() as int - prev[cur - MIN_ORDER].len() as int == 1);
                    assert(pow2((cur + 1) as nat) == 2 * pow2(cur as nat));
                    assert(bytes_from(prev, i) + (if i <= j { pow2(top as nat) as int } else { 0int })
                        == bytes_from(old_lists, i) + split_gain((cur + 1) as nat, top as nat, (i + MIN_ORDER) as nat));
                }
                assert forall|b: (u64, nat)| #[trigger] self.free_set().contains(b) implies
                    blocks_disjoint(b, (addr, cur as nat)) by {
                    if b != ((addr + size) as u64, cur as nat) {
                        assert(blocks_disjoint(b, (addr, (cur + 1) as nat)));
                    }
                }
            }
        }
        proof {
            lemma_aligned_smaller(addr as int, order as nat, top as nat);
            if order < top {
                lemma_pow2_strictly_increases(order as nat, top as nat);
            }
            assert(addr == old_lists[j as int].last());
            assert(old(self).free_from(order as nat) > 0);
            assert forall|k: nat| MIN_ORDER <= k <= order implies
                #[trigger] self.free_from(k) + pow2(order as nat) == old(self).free_from(k) by {
                let i = (k - MIN_ORDER) as nat;
                assert(bytes_from(self.lists(), i) + pow2(top as nat) as int
                    == bytes_from(old_lists, i) + split_gain(order as nat, top as nat, k));
            }
            assert forall|k: nat| order < k <= MAX_ORDER implies
                #[trigger] self.free_from(k) + pow2(k) >= old(self).free_from(k) by {
                let i = (k - MIN_ORDER) as nat;
                assert(bytes_from(self.lists(), i) + (if i <= j { pow2(top as nat) as int } else { 0int })
                    == bytes_from(old_lists, i) + split_gain(order as nat, top as nat, k));
                if k < top {
                    lemma_pow2_strictly_increases(k, top as nat);
                }
            }
            lemma_held_after_alloc(old(self).outstanding(), old_set, self.free_set(), addr, order as nat, top as nat);
            lemma_seq_push_set(self.held@, (addr, order as nat));
            lemma_seq_bytes_push(self.held@, (addr, order as nat));
            assert(!self.held@.contains((addr, order as nat))) by {
                if self.held@.contains((addr, order as nat)) {
                    assert(self.outstanding().contains((addr, order as nat)));
                    assert(blocks_disjoint((addr, order as nat), (addr, top as nat)));
                }
            }
            lemma_seq_push_no_dup(self.held@, (addr, order as nat));
        }
        self.held = Ghost(self.held@.push((addr, order as nat)));
        Some(addr)
    }

    /// Does [addr, addr + 2^order) overlap any free block?
    fn overlaps_any(&self, addr: u64, order: usize) -> (r: bool)
        requires
            lists_wf(self.lists()),
            order <= MAX_ORDER,
        ensures
            r == overlaps_free(self.free_set(), addr, order as nat),
    {
        let mut i: usize = 0;
        while i < NUM_ORDERS
            invariant
                i <= NUM_ORDERS,
                order <= MAX_ORDER,
                lists_wf(self.lists()),
                forall|b: (u64, nat)| #[trigger] self.free_set().contains(b) && b.1 < i + MIN_ORDER
                    ==> blocks_disjoint(b, (addr, order as nat)),
            decreases NUM_ORDERS - i,
        {
            let list = &self.free_lists[i];
            let size = block_size(i + MIN_ORDER);
            let osize = block_size(order);
            proof {
                assert(self.lists()[i as int] == list@);
            }
            let mut j: usize = 0;
            while j < list.len()
                invariant
                    i < NUM_ORDERS,
                    j <= list@.len(),
                    self.lists()[i as int] == list@,
                    lists_wf(self.lists()),
                    size as nat == pow2((i + MIN_ORDER) as nat),
                    osize as nat == pow2(order as nat),
                    forall|m: int| 0 <= m < j ==> blocks_disjoint((#[trigger] list@[m], (i + MIN_ORDER) as nat), (addr, order as nat)),
                decreases list@.len() - j,
            {
                let b = list[j];
                proof {
                    assert(b + pow2((i + MIN_ORDER) as nat) <= MAX_PHYS_ADDR);
                }
                if !((b as u128) + (size as u128) <= addr as u128 || (addr as u128) + (osize as u128) <= b as u128) {
                    proof {
                        assert(self.free_set().contains((b, (i + MIN_ORDER) as nat)));
                    }
                    return true;
                }
                j = j + 1;
            }
            proof {
                assert forall|b: (u64, nat)| #[trigger] self.free_set().contains(b) && b.1 < i + 1 + MIN_ORDER
                    implies blocks_disjoint(b, (addr, order as nat)) by {
                    if b.1 == i + MIN_ORDER {
                        let m = choose|m: int| 0 <= m < list@.len() && list@[m] == b.0;
                        assert(blocks_disjoint((list@[m], (i + MIN_ORDER) as nat), (addr, order as nat)));
                    }
                }
            }
            i = i + 1;
        }
        false
    }

    /// Returns a block of 2^order bytes at `addr`, merging it with its buddy
    /// (`addr XOR 2^order`) for as long as the buddy is free, then pushing the
    /// merged block. Refuses, changing nothing, a misaligned block, one past
    /// the physical address limit, one that overlaps a free block (a double
    /// free), and one larger than what is allocated.
    #[verifier::rlimit(40)]
    pub fn deallocate(&mut self, addr: u64, order: usize) -> (r: Result<(), BuddyError>)
        requires
            old(self).wf(),
            MIN_ORDER <= order <= MAX_ORDER,
            old(self).outstanding().contains((addr, order as nat)),
        ensures
            r.is_ok(),
            final(self).outstanding() == old(self).outstanding().remove((addr, order as nat)),
            final(self).wf(),
            final(self).total_bytes() == old(self).total_bytes(),
            r.is_ok() ==> dealloc_effect(old(self).free_set(), addr, order as nat, final(self).free_set())
                && final(self).free_bytes() == old(self).free_bytes() + pow2(order as nat)
                && final(self).allocated_bytes() + pow2(order as nat) == old(self).allocated_bytes(),
    {
        let size = block_size(order);
        let ghost hi = choose|i: int| 0 <= i < self.held@.len() && self.held@[i] == (addr, order as nat);
        proof {
            assert(self.outstanding().contains((addr, order as nat)));
            assert(self.held@.contains((addr, order as nat)));
            lemma_seq_bytes_remove(self.held@, hi);
            assert forall|b: (u64, nat)| #[trigger] self.free_set().contains(b) implies blocks_disjoint(b, (addr, order as nat)) by {
                assert(blocks_disjoint((addr, order as nat), b));
            }
            lemma_pow2_pos(order as nat);
        }
        if addr % size != 0 {
            return Err(BuddyError::Misaligned);
        }
        if addr > MAX_PHYS_ADDR || size > MAX_PHYS_ADDR - addr {
            return Err(BuddyError::OutOfRange);
        }
        if self.overlaps_any(addr, order) {
            return Err(BuddyError::DoubleFree);
        }
        if self.allocated < size {
            return Err(BuddyError::NotAllocated);
        }
        let ghost old_set = self.free_set();
        let ghost old_free = self.free_bytes();
        let ghost hs = self.held@.remove(hi);
        let ghost h1 = hs.to_set();
        proof {
            lemma_seq_remove_set(self.held@, hi);
            assert(h1 == self.outstanding().remove((addr, order as nat)));
            assert forall|o: (u64, nat)| #[trigger] h1.contains(o) implies blocks_disjoint(o, (addr, order as nat)) by {
                assert(self.outstanding().contains(o));
            }
        }
        self.held = Ghost(hs);
        self.allocated = self.allocated - size;
        let mut cur = addr;
        let mut k = order;
        proof {
            assert forall|b: (u64, nat)| #[trigger] self.free_set().contains(b) implies blocks_disjoint(b, (addr, order as nat)) by {
                if !blocks_disjoint(b, (addr, order as nat)) {
                    assert(overlaps_free(old_set, addr, order as nat));
                }
            }
        }
        while k < MAX_ORDER
            invariant
                MIN_ORDER <= order <= k <= MAX_ORDER,
                lists_wf(self.lists()),
                cur >= 0,
                aligned(cur as int, k as nat),
                cur + pow2(k as nat) <= MAX_PHYS_ADDR,
                disjoint_from_all(self.free_set(), (cur, k as nat)),
                cur <= addr,
                addr + pow2(order as nat) <= cur + pow2(k as nat),
                merge_block(old_set, cur, k as nat) == merge_block(old_set, addr, order as nat),
                forall|b: (u64, nat)| (b.1 < order || b.1 >= k) ==>
                    (#[trigger] self.free_set().contains(b) <==> old_set.contains(b)),
                forall|b: (u64, nat)| #[trigger] self.free_set().contains(b) ==> old_set.contains(b),
                self.free_bytes() + pow2(k as nat) == old_free + pow2(order as nat),
                self.free_bytes() + pow2(k as nat) + self.allocated_bytes() == self.total_bytes(),
                self.total_bytes() == old(self).total_bytes(),
                self.total_bytes() <= u64::MAX,
                self.held@ == hs,
                hs.to_set() == h1,
                hs.no_duplicates(),
                self.allocated_bytes() == seq_bytes(hs),
                held_wf(h1, self.free_set()),
                forall|o: (u64, nat)| #[trigger] h1.contains(o) ==> blocks_disjoint(o, (cur, k as nat)),
            ensures
                MIN_ORDER <= order <= k <= MAX_ORDER,
                lists_wf(self.lists()),
                cur >= 0,
                aligned(cur as int, k as nat),
                cur + pow2(k as nat) <= MAX_PHYS_ADDR,
                disjoint_from_all(self.free_set(), (cur, k as nat)),
                cur <= addr,
                addr + pow2(order as nat) <= cur + pow2(k as nat),
                merge_block(old_set, cur, k as nat) == merge_block(old_set, addr, order as nat),
                forall|b: (u64, nat)| (b.1 < order || b.1 >= k) ==>
                    (#[trigger] self.free_set().contains(b) <==> old_set.contains(b)),
                forall|b: (u64, nat)| #[trigger] self.free_set().contains(b) ==> old_set.contains(b),
                self.free_bytes() + pow2(k as nat) == old_free + pow2(order as nat),
                self.free_bytes() + pow2(k as nat) + self.allocated_bytes() == self.total_bytes(),
                self.total_bytes() == old(self).total_bytes(),
                self.total_bytes() <= u64::MAX,
                self.held@ == hs,
                hs.to_set() == h1,
                hs.no_duplicates(),
                self.allocated_bytes() == seq_bytes(hs),
                held_wf(h1, self.free_set()),
                forall|o: (u64, nat)| #[trigger] h1.contains(o) ==> blocks_disjoint(o, (cur, k as nat)),
                merge_block(old_set, cur, k as nat) == (cur, k as nat),
            decreases MAX_ORDER - k,
        {
            let bsize = block_size(k);
            proof {
                lemma_merge_aligned(cur as int, k as nat);
            }
            let buddy: u64 = if (cur / bsize) % 2 == 0 { cur + bsize } else { cur - bsize };
            proof {
                assert(buddy as int == buddy_of(cur as int, k as nat));
            }
            let f = self.find_block(k - MIN_ORDER, buddy);
            match f {
                None => {
                    proof {
                        assert(!self.free_set().contains((buddy, k as nat)));
                        assert(!old_set.contains((buddy, k as nat)));
                        assert(merge_block(old_set, cur, k as nat) == (cur, k as nat));
                    }
                    break;
                },
                Some(jx) => {
                    let ghost pre_set = self.free_set();
                    proof {
                        assert(pre_set.contains((buddy, k as nat)));
                        assert(old_set.contains((buddy, k as nat)));
                        assert(blocks_disjoint((buddy, k as nat), (cur, k as nat)));
                        lemma_pow2_unfold((k + 1) as nat);
                        assert(pow2((k + 1) as nat) == 2 * pow2(k as nat));
                        assert(buddy == cur + pow2(k as nat) || buddy + pow2(k as nat) == cur);
                    }
                    self.remove_at(k - MIN_ORDER, jx);
                    let merged = if cur <= buddy { cur } else { buddy };
                    proof {
                        assert forall|b: (u64, nat)| #[trigger] self.free_set().contains(b) implies
                            blocks_disjoint(b, (merged, (k + 1) as nat)) by {
                            assert(pre_set.contains(b));
                            lemma_pow2_pos(b.1);
                            assert(b != (buddy, k as nat));
                            assert(blocks_disjoint(b, (cur, k as nat)));
                            assert(blocks_disjoint(b, (buddy, k as nat)));
                        }
                        assert forall|b: (u64, nat)| (b.1 < order || b.1 >= k + 1) implies
                            (#[trigger] self.free_set().contains(b) <==> old_set.contains(b)) by {
                            assert(self.free_set().contains(b) <==> pre_set.contains(b));
                        }
                    }
                    proof {
                        assert forall|o: (u64, nat)| #[trigger] h1.contains(o) implies
                            blocks_disjoint(o, (merged, (k + 1) as nat)) by {
                            lemma_pow2_pos(o.1);
                            assert(blocks_disjoint(o, (cur, k as nat)));
                            assert(blocks_disjoint(o, (buddy, k as nat)));
                        }
                        assert forall|a: (u64, nat), b: (u64, nat)| #[trigger] h1.contains(a) && #[trigger] self.free_set().contains(b)
                            implies blocks_disjoint(a, b) by {
                            assert(pre_set.contains(b));
                        }
                    }
                    cur = merged;
                    k = k + 1;
                },
            }
        }
        let ghost pre_add = self.free_set();
        self.add_block(k, cur);
        proof {
            assert(self.free_set().contains((cur, k as nat)));
            assert forall|a: (u64, nat), b: (u64, nat)| #[trigger] h1.contains(a) && #[trigger] self.free_set().contains(b)
                implies blocks_disjoint(a, b) by {
                if b != (cur, k as nat) {
                    assert(pre_add.contains(b));
                }
            }
        }
        Ok(())
    }

    /// Adds the usable memory [start, end): carves it, from `start` up, into
    /// the largest blocks that both the address's alignment and the remaining
    /// size allow (at most 2^28), and pushes each onto its list. A tail
    /// shorter than one frame is left out.
    #[verifier::rlimit(100)]
    pub fn add_region(&mut self, start: u64, end: u64)
        requires
            old(self).wf(),
            start % 4096 == 0,
            start <= end <= MAX_PHYS_ADDR,
            old(self).total_bytes() + (end - start) <= u64::MAX,
            forall|b: (u64, nat)| #[trigger] old(self).free_set().contains(b) ==>
                b.0 + pow2(b.1) <= start || end <= b.0,
            forall|b: (u64, nat)| #[trigger] old(self).outstanding().contains(b) ==>
                b.0 + pow2(b.1) <= start || end <= b.0,
        ensures
            final(self).outstanding() == old(self).outstanding(),
            final(self).wf(),
            end - start >= 4096 ==> exists|o: nat| MIN_ORDER <= o <= MAX_ORDER
                && #[trigger] final(self).free_set().contains((start, o)),
            final(self).free_set() == old(self).free_set().union(carved_blocks(start, end)),
            final(self).total_bytes() == old(self).total_bytes() + (end - start) - (end - start) % 4096,
            final(self).free_bytes() == old(self).free_bytes() + (end - start) - (end - start) % 4096,
            final(self).allocated_bytes() == old(self).allocated_bytes(),
            forall|b: (u64, nat)| #[trigger] old(self).free_set().contains(b) ==> final(self).free_set().contains(b),
            forall|b: (u64, nat)| #[trigger] final(self).free_set().contains(b) ==>
                old(self).free_set().contains(b) || (start <= b.0 && b.0 + pow2(b.1) <= end),
    {
        let ghost old_set = self.free_set();
        let mut cur = start;
        proof {
            lemma2_to64();
        }
        let ghost mut fuel: nat = ((end - start) / 4096 + 1) as nat;
        proof {
            assert((end - start) < 4096 * fuel) by (nonlinear_arith)
                requires fuel == (end - start) / 4096 + 1, end >= start;
        }
        while end - cur >= 4096
            invariant
                (end - cur) < 4096 * fuel,
                self.free_set().union(carved_from(cur as nat, end as nat, fuel))
                    == old_set.union(carved_blocks(start, end)),
                start <= cur <= end <= MAX_PHYS_ADDR,
                cur % 4096 == 0,
                start % 4096 == 0,
                pow2(12) == 4096,
                lists_wf(self.lists()),
                self.free_bytes() == old(self).free_bytes() + (cur - start),
                self.allocated == old(self).allocated,
                self.total_memory == old(self).total_memory,
                self.held == old(self).held,
                cur > start ==> exists|o: nat| MIN_ORDER <= o <= MAX_ORDER && #[trigger] self.free_set().contains((start, o)),
                forall|b: (u64, nat)| #[trigger] old_set.contains(b) ==> self.free_set().contains(b),
                forall|b: (u64, nat)| #[trigger] self.free_set().contains(b) ==>
                    old_set.contains(b) || (start <= b.0 && b.0 + pow2(b.1) <= cur),
                forall|b: (u64, nat)| #[trigger] old_set.contains(b) ==> b.0 + pow2(b.1) <= start || end <= b.0,
            decreases end - cur,
        {
            let o = block_order(cur, end - cur);
            let ghost pre_set = self.free_set();
            let ghost rest = carved_from((cur + pow2(o as nat)) as nat, end as nat, (fuel - 1) as nat);
            proof {
                assert(fuel > 0);
                assert(carved_from(cur as nat, end as nat, fuel) == rest.insert((cur, o as nat)));
            }
            let size = block_size(o);
            proof {
                assert forall|b: (u64, nat)| #[trigger] self.free_set().contains(b) implies
                    blocks_disjoint(b, (cur, o as nat)) by {
                    if old_set.contains(b) {
                    }
                }
            }
            let ghost pre = self.free_set();
            self.add_block(o, cur);
            proof {
                if cur == start {
                    assert(self.free_set().contains((start, o as nat)));
                } else {
                    let o2 = choose|o2: nat| MIN_ORDER <= o2 <= MAX_ORDER && #[trigger] pre.contains((start, o2));
                    assert(self.free_set().contains((start, o2)));
                }
                lemma_aligned_add(cur as int, o as nat);
                lemma_aligned_smaller((cur + size) as int, 12, o as nat);
            }
            proof {
                assert(self.free_set() == pre_set.insert((cur, o as nat)));
                assert(self.free_set().union(rest) =~= pre_set.union(rest.insert((cur, o as nat))));
                lemma_pow2_strictly_increases_or_eq(12, o as nat);
                fuel = (fuel - 1) as nat;
            }
            cur = cur + size;
        }
        proof {
            let q = (cur / 4096 - start / 4096) as int;
            assert(cur == 4096 * (cur / 4096));
            assert(start == 4096 * (start / 4096));
            lemma_fundamental_div_mod_converse((end - start) as int, 4096, q, (end - cur) as int);
            assert forall|b: (u64, nat)| #[trigger] self.free_set().contains(b) implies
                old_set.contains(b) || (start <= b.0 && b.0 + pow2(b.1) <= end) by {
                if !old_set.contains(b) {
                    assert(b.0 + pow2(b.1) <= cur);
                }
            }
            lemma_held_after_region(self.outstanding(), old_set, self.free_set(), start, end);
            assert(carved_from(cur as nat, end as nat, fuel) == Set::<(u64, nat)>::empty());
            assert(self.free_set() =~= old_set.union(carved_blocks(start, end)));
            if end - start >= 4096 {
                assert(cur > start);
            }
        }
        let ghost fs = self.free_set();
        self.total_memory = self.total_memory + (cur - start);
        proof {
            assert(self.free_set() == fs);
            if end - start >= 4096 {
                let o2 = choose|o2: nat| MIN_ORDER <= o2 <= MAX_ORDER && #[trigger] fs.contains((start, o2));
                assert(self.free_set().contains((start, o2)));
            }
        }
    }

    /// Number of free blocks of each order, from order 12 up.
    pub fn free_block_counts(&self) -> (r: Vec<usize>)
        requires
            self.wf(),
        ensures
            r@.len() == NUM_ORDERS,
            forall|i: int| 0 <= i < NUM_ORDERS ==> r@[i] == self.lists()[i].len(),
    {
        let mut r: Vec<usize> = Vec::new();
        let mut i: usize = 0;
        while i < NUM_ORDERS
            invariant
                i <= NUM_ORDERS,
                self.wf(),
                r@.len() == i,
                forall|m: int| 0 <= m < i ==> r@[m] == self.lists()[m].len(),
            decreases NUM_ORDERS - i,
        {
            proof {
                assert(self.lists()[i as int] == self.free_lists@[i as int]@);
            }
            r.push(self.free_lists[i].len());
            i = i + 1;
        }
        r
    }

    /// The order of the free block that starts at `addr`, if there is one.
    pub fn free_order_of(&self, addr: u64) -> (r: Option<usize>)
        requires
            self.wf(),
        ensures
            r.is_some() ==> MIN_ORDER <= r.unwrap() <= MAX_ORDER
                && self.free_set().contains((addr, r.unwrap() as nat)),
            r.is_none() ==> forall|o: nat| !(#[trigger] self.free_set().contains((addr, o))),
    {
        let mut o: usize = MIN_ORDER;
        while o <= MAX_ORDER
            invariant
                MIN_ORDER <= o <= MAX_ORDER + 1,
                self.wf(),
                forall|k: nat| k < o ==> !(#[trigger] self.free_set().contains((addr, k))),
            decreases MAX_ORDER + 1 - o,
        {
            if self.is_free(o, addr) {
                return Some(o);
            }
            o = o + 1;
        }
        None
    }
}

/// From order `o` up: the largest order, at most 28, to which `addr` is
/// aligned and whose block fits in `rem` bytes.
pub open spec fn carve_order_from(addr: u64, rem: nat, o: nat) -> nat
    decreases MAX_ORDER - o,
{
    if o >= MAX_ORDER || !aligned(addr as int, o + 1) || pow2(o + 1) > rem {
        o
    } else {
        carve_order_from(addr, rem, o + 1)
    }
}

/// The order of the block carved at `addr` with `rem` bytes left.
pub open spec fn carve_order(addr: u64, rem: nat) -> nat {
    carve_order_from(addr, rem, MIN_ORDER as nat)
}

/// The blocks that carving [cur, end) gives, in at most `fuel` steps: the
/// largest block at `cur` that alignment and size allow, then the rest.
pub open spec fn carved_from(cur: nat, end: nat, fuel: nat) -> Set<(u64, nat)>
    decreases fuel,
{
    if fuel == 0 || end < cur + 4096 {
        Set::empty()
    } else {
        let o = carve_order(cur as u64, (end - cur) as nat);
        carved_from(cur + pow2(o), end, (fuel - 1) as nat).insert((cur as u64, o))
    }
}

/// The blocks that `add_region(start, end)` puts on the free lists.
pub open spec fn carved_blocks(start: u64, end: u64) -> Set<(u64, nat)> {
    carved_from(start as nat, end as nat, ((end - start) / 4096 + 1) as nat)
}

/// The part of a usable memory region [start, end) that `add_region` can
/// take: `start` rounded up to a frame, `end` capped at MAX_PHYS_ADDR;
/// `None` when nothing is left.
pub fn usable_range(start: u64, end: u64) -> (r: Option<(u64, u64)>)
    ensures
        r.is_some() ==> r.unwrap().0 % 4096 == 0 && r.unwrap().0 <= r.unwrap().1 <= MAX_PHYS_ADDR
            && start <= r.unwrap().0 < start + 4096
            && r.unwrap().1 == (if end < MAX_PHYS_ADDR { end } else { MAX_PHYS_ADDR }),
        r.is_none() ==> start > MAX_PHYS_ADDR || ({
            let s = start + (4096 - start % 4096) % 4096;
            s >= (if end < MAX_PHYS_ADDR { end } else { MAX_PHYS_ADDR })
        }),
{
    if start > MAX_PHYS_ADDR {
        return None;
    }
    let s = if start % 4096 == 0 { start } else { start + (4096 - start % 4096) };
    let e = if end < MAX_PHYS_ADDR { end } else { MAX_PHYS_ADDR };
    if s >= e {
        return None;
    }
    Some((s, e))
}

/// The order of the first block carved at `addr` from a region with
/// `remaining` bytes left: the largest order, 12 to 28, to which `addr` is
/// aligned and whose size fits in `remaining`.
fn block_order(addr: u64, remaining: u64) -> (r: usize)
    requires
        addr % 4096 == 0,
        remaining >= 4096,
    ensures
        MIN_ORDER <= r <= MAX_ORDER,
        aligned(addr as int, r as nat),
        pow2(r as nat) <= remaining,
        r == MAX_ORDER || !aligned(addr as int, (r + 1) as nat) || pow2((r + 1) as nat) > remaining,
        r as nat == carve_order(addr, remaining as nat),
{
    proof {
        lemma2_to64();
    }
    let mut o: usize = MIN_ORDER;
    loop
        invariant
            MIN_ORDER <= o <= MAX_ORDER,
            aligned(addr as int, o as nat),
            pow2(o as nat) <= remaining,
            carve_order(addr, remaining as nat) == carve_order_from(addr, remaining as nat, o as nat),
        ensures
            carve_order(addr, remaining as nat) == o as nat,
            MIN_ORDER <= o <= MAX_ORDER,
            aligned(addr as int, o as nat),
            pow2(o as nat) <= remaining,
            o == MAX_ORDER || !aligned(addr as int, (o + 1) as nat) || pow2((o + 1) as nat) > remaining,
        decreases MAX_ORDER - o,
    {
        if o == MAX_ORDER {
            break;
        }
        let next = block_size(o + 1);
        if addr % next != 0 || next > remaining {
            break;
        }
        o = o + 1;
    }
    o
}

proof fn lemma_held_after_alloc(held: Set<(u64, nat)>, old_free: Set<(u64, nat)>, new_free: Set<(u64, nat)>,
    a: u64, order: nat, top: nat)
    requires
        held_wf(held, old_free),
        old_free.contains((a, top)),
        MIN_ORDER <= order <= top <= MAX_ORDER,
        aligned(a as int, order),
        a + pow2(order) <= MAX_PHYS_ADDR,
        disjoint_from_all(new_free, (a, order)),
        forall|b: (u64, nat)| #[trigger] new_free.contains(b) <==>
            ((old_free.contains(b) && b != (a, top)) || (order <= b.1 < top && b.0 == a + pow2(b.1))),
    ensures
        held_wf(held.insert((a, order)), new_free),
{
    let nh = held.insert((a, order));
    lemma_pow2_pos(order);
    if order < top {
        lemma_pow2_strictly_increases(order, top);
    }
    assert forall|x: (u64, nat), y: (u64, nat)| #[trigger] nh.contains(x) && #[trigger] nh.contains(y) && x != y
        implies blocks_disjoint(x, y) by {
        if x == (a, order) {
            assert(blocks_disjoint(y, (a, top)));
        } else if y == (a, order) {
            assert(blocks_disjoint(x, (a, top)));
        }
    }
    assert forall|x: (u64, nat), b: (u64, nat)| #[trigger] nh.contains(x) && #[trigger] new_free.contains(b)
        implies blocks_disjoint(x, b) by {
        if x != (a, order) {
            assert(held.contains(x));
            if !old_free.contains(b) || b == (a, top) {
                assert(order <= b.1 < top && b.0 == a + pow2(b.1));
                lemma_pow2_unfold(b.1 + 1);
                if b.1 + 1 < top {
                    lemma_pow2_strictly_increases(b.1 + 1, top);
                }
                lemma_pow2_pos(b.1);
                assert(blocks_disjoint(x, (a, top)));
            }
        }
    }
}

proof fn lemma_held_after_region(held: Set<(u64, nat)>, old_free: Set<(u64, nat)>, new_free: Set<(u64, nat)>,
    start: u64, end: u64)
    requires
        held_wf(held, old_free),
        forall|b: (u64, nat)| #[trigger] held.contains(b) ==> b.0 + pow2(b.1) <= start || end <= b.0,
        forall|b: (u64, nat)| #[trigger] new_free.contains(b) ==>
            old_free.contains(b) || (start <= b.0 && b.0 + pow2(b.1) <= end),
    ensures
        held_wf(held, new_free),
{
    assert forall|a: (u64, nat), b: (u64, nat)| #[trigger] held.contains(a) && #[trigger] new_free.contains(b)
        implies blocks_disjoint(a, b) by {
        if !old_free.contains(b) {
            lemma_pow2_pos(a.1);
        }
    }
}

proof fn lemma_first_nonempty(lists: Seq<Seq<u64>>, i: nat)
    requires
        lists.len() == NUM_ORDERS,
        i <= NUM_ORDERS,
    ensures
        first_nonempty(lists, i) == NUM_ORDERS <==> forall|j: int| i <= j < NUM_ORDERS ==> #[trigger] lists[j].len() == 0,
        first_nonempty(lists, i) <= NUM_ORDERS,
    decreases NUM_ORDERS - i,
{
    if i < NUM_ORDERS {
        lemma_first_nonempty(lists, i + 1);
    }
}

/// Bytes of the blocks in `s`.
pub open spec fn seq_bytes(s: Seq<(u64, nat)>) -> nat
    decreases s.len(),
{
    if s.len() == 0 { 0 } else { seq_bytes(s.drop_last()) + pow2(s.last().1) }
}

proof fn lemma_seq_bytes_push(s: Seq<(u64, nat)>, x: (u64, nat))
    ensures
        seq_bytes(s.push(x)) == seq_bytes(s) + pow2(x.1),
{
    assert(s.push(x).drop_last() =~= s);
}

proof fn lemma_seq_bytes_remove(s: Seq<(u64, nat)>, i: int)
    requires
        0 <= i < s.len(),
    ensures
        seq_bytes(s.remove(i)) + pow2(s[i].1) == seq_bytes(s),
    decreases s.len(),
{
    if i == s.len() - 1 {
        assert(s.remove(i) =~= s.drop_last());
    } else {
        lemma_seq_bytes_remove(s.drop_last(), i);
        assert(s.remove(i).drop_last() =~= s.drop_last().remove(i));
        assert(s.remove(i).last() == s.last());
    }
}

proof fn lemma_seq_push_set(s: Seq<(u64, nat)>, x: (u64, nat))
    ensures
        s.push(x).to_set() == s.to_set().insert(x),
{
    assert forall|y: (u64, nat)| #[trigger] s.push(x).contains(y) <==> (s.contains(y) || y == x) by {
        if s.contains(y) {
            let i = choose|i: int| 0 <= i < s.len() && s[i] == y;
            assert(s.push(x)[i] == y);
        }
        if y == x {
            assert(s.push(x)[s.len() as int] == x);
        }
        if s.push(x).contains(y) {
            let i = choose|i: int| 0 <= i < s.push(x).len() && s.push(x)[i] == y;
            if i < s.len() {
                assert(s[i] == y);
            }
        }
    }
    assert(s.push(x).to_set() =~= s.to_set().insert(x));
}

proof fn lemma_seq_push_no_dup(s: Seq<(u64, nat)>, x: (u64, nat))
    requires
        s.no_duplicates(),
        !s.contains(x),
    ensures
        s.push(x).no_duplicates(),
{
    assert forall|a: int, b: int| 0 <= a < s.len() + 1 && 0 <= b < s.len() + 1 && a != b
        implies s.push(x)[a] != s.push(x)[b] by {
        if a == s.len() {
            assert(s.contains(s[b]));
        } else if b == s.len() {
            assert(s.contains(s[a]));
        }
    }
}

proof fn lemma_seq_remove_set(s: Seq<(u64, nat)>, i: int)
    requires
        0 <= i < s.len(),
        s.no_duplicates(),
    ensures
        s.remove(i).to_set() == s.to_set().remove(s[i]),
        s.remove(i).no_duplicates(),
{
    let r = s.remove(i);
    assert forall|j: int| 0 <= j < r.len() implies r[j] == (if j < i { s[j] } else { s[j + 1] }) by {}
    assert forall|x: (u64, nat)| #[trigger] r.contains(x) <==> (s.contains(x) && x != s[i]) by {
        if s.contains(x) && x != s[i] {
            let j = choose|j: int| 0 <= j < s.len() && s[j] == x;
            if j < i {
                assert(r[j] == x);
            } else {
                assert(r[j - 1] == x);
            }
        }
        if r.contains(x) {
            let j = choose|j: int| 0 <= j < r.len() && r[j] == x;
            if j < i {
                assert(s[j] == x);
            } else {
                assert(s[j + 1] == x);
            }
        }
    }
    assert(r.to_set() =~= s.to_set().remove(s[i]));
}

/// Bytes that splitting a block of order `top` down to order `cur` has put
/// back on the lists of order `k` or more.
pub open spec fn split_gain(cur: nat, top: nat, k: nat) -> int {
    if k < top {
        pow2(top) - pow2(if cur >= k { cur } else { k })
    } else {
        0
    }
}

proof fn lemma_bytes_from_pos(lists: Seq<Seq<u64>>, i: nat, j: nat)
    requires
        lists.len() == NUM_ORDERS,
        i <= j < NUM_ORDERS,
        lists[j as int].len() > 0,
    ensures
        bytes_from(lists, i) > 0,
    decreases j - i,
{
    lemma_pow2_pos(i + MIN_ORDER as nat);
    if i < j {
        lemma_bytes_from_pos(lists, i + 1, j);
    } else {
        assert(lists[i as int].len() * pow2(i + MIN_ORDER as nat) > 0) by (nonlinear_arith)
            requires lists[i as int].len() > 0, pow2(i + MIN_ORDER as nat) > 0;
    }
}

/// `after` is `before` with one 4 KiB frame at `a` handed out.
pub open spec fn took_frame(before: BuddyAllocator, after: BuddyAllocator, a: u64) -> bool {
    &&& after.outstanding() == before.outstanding().insert((a, MIN_ORDER as nat))
    &&& after.total_bytes() == before.total_bytes()
    &&& after.free_from(MIN_ORDER as nat) + pow2(MIN_ORDER as nat) == before.free_from(MIN_ORDER as nat)
    &&& forall|k: nat| MIN_ORDER <= k <= MAX_ORDER ==> #[trigger] after.free_from(k) + pow2(k) >= before.free_from(k)
}

/// `after` holds the same memory as `before`: the same blocks handed out
/// and the same free bytes at every order.
pub open spec fn same_memory(before: BuddyAllocator, after: BuddyAllocator) -> bool {
    &&& after.outstanding() == before.outstanding()
    &&& after.total_bytes() == before.total_bytes()
    &&& forall|k: nat| #[trigger] after.free_from(k) == before.free_from(k)
}

proof fn lemma_bytes_from_zero(lists: Seq<Seq<u64>>, i: nat)
    requires
        forall|j: int| i <= j < NUM_ORDERS ==> #[trigger] lists[j].len() == 0,
    ensures
        bytes_from(lists, i) == 0,
    decreases NUM_ORDERS - i,
{
    if i < NUM_ORDERS && i < lists.len() {
        lemma_bytes_from_zero(lists, i + 1);
    }
}

proof fn lemma_first_nonempty_below(lists: Seq<Seq<u64>>, i: nat, m: nat)
    requires
        lists.len() == NUM_ORDERS,
        i <= m < NUM_ORDERS,
        lists[m as int].len() > 0,
    ensures
        first_nonempty(lists, i) <= m,
    decreases m - i,
{
    if i < m && lists[i as int].len() == 0 {
        lemma_first_nonempty_below(lists, i + 1, m);
    }
}

proof fn lemma_pow2_strictly_increases_or_eq(a: nat, b: nat)
    requires
        a <= b,
    ensures
        pow2(a) <= pow2(b),
{
    if a < b {
        lemma_pow2_strictly_increases(a, b);
    }
}

proof fn lemma_bytes_zero(lists: Seq<Seq<u64>>, i: nat)
    requires
        forall|j: int| 0 <= j < lists.len() ==> (#[trigger] lists[j]).len() == 0,
    ensures
        bytes_from(lists, i) == 0,
    decreases NUM_ORDERS - i,
{
    if i < NUM_ORDERS && i < lists.len() {
        lemma_bytes_zero(lists, i + 1);
    }
}

} // verus!

verus! {

proof fn lemma_buddy_involutive(a: int, o: nat)
    requires
        a >= 0,
        aligned(a, o),
    ensures
        buddy_of(a, o) >= 0,
        aligned(buddy_of(a, o), o),
        buddy_of(buddy_of(a, o), o) == a,
{
    lemma_pow2_pos(o);
    let p = pow2(o) as int;
    lemma_fundamental_div_mod(a, p);
    let q = a / p;
    assert(q >= 0) by (nonlinear_arith) requires a >= 0, p > 0, q == a / p;
    if q % 2 == 0 {
        assert(a + p == (q + 1) * p + 0) by (nonlinear_arith) requires a == p * q + a % p, a % p == 0;
        lemma_fundamental_div_mod_converse(a + p, p, q + 1, 0);
        lemma_aligned_add(a, o);
    } else {
        assert(q >= 1);
        assert(a >= p && a - p == (q - 1) * p + 0) by (nonlinear_arith)
            requires a == p * q + a % p, a % p == 0, q >= 1, p > 0;
        lemma_fundamental_div_mod_converse(a - p, p, q - 1, 0);
    }
}

/// The lower of two addresses.
pub open spec fn lower(x: int, y: int) -> int {
    if x <= y { x } else { y }
}

/// Coalescing law: free a block of order `o` at `a` while its buddy is
/// allocated, then free the buddy. The two then stand as one free block of
/// order `o + 1` at the lower of the two addresses, unless that block's own
/// buddy was free as well (then it merges further).
pub proof fn lemma_coalescing(s0: Set<(u64, nat)>, a: u64, o: nat, s1: Set<(u64, nat)>, s2: Set<(u64, nat)>)
    requires
        MIN_ORDER <= o < MAX_ORDER,
        aligned(a as int, o),
        a + pow2(o + 1) <= MAX_PHYS_ADDR,
        !s0.contains((buddy_of(a as int, o) as u64, o)),
        o + 1 == MAX_ORDER
            || !s0.contains((buddy_of(lower(a as int, buddy_of(a as int, o)), o + 1) as u64, o + 1)),
        dealloc_effect(s0, a, o, s1),
        dealloc_effect(s1, buddy_of(a as int, o) as u64, o, s2),
    ensures
        s2.contains((lower(a as int, buddy_of(a as int, o)) as u64, o + 1)),
{
    let b = buddy_of(a as int, o);
    lemma_buddy_involutive(a as int, o);
    lemma_pow2_unfold(o + 1);
    lemma_pow2_pos(o);
    assert(0 <= b < MAX_PHYS_ADDR);
    assert(b as u64 as int == b);
    assert(merge_block(s0, a, o) == (a, o));
    assert(s1.contains((a, o)));
    assert(buddy_of(b as u64 as int, o) as u64 == a);
    let m = lower(b, a as int);
    assert(m == lower(a as int, b));
    assert(merge_block(s1, b as u64, o) == merge_block(s1, m as u64, o + 1));
    let c = (buddy_of(m as u64 as int, o + 1) as u64, o + 1);
    assert(s1.contains(c) <==> s0.contains(c));
    assert(merge_block(s1, m as u64, o + 1) == (m as u64, o + 1));
}

/// Double free: once `deallocate(x, o)` has run, (x, o) is no longer
/// outstanding, so a second `deallocate(x, o)` is outside its precondition;
/// and the block [x, x + 2^o) overlaps a free block, which is what the
/// run-time guard of `deallocate` tests before answering
/// `BuddyError::DoubleFree` to a caller that did not verify its calls.
pub proof fn lemma_double_free_detected(s0: Set<(u64, nat)>, x: u64, o: nat, s1: Set<(u64, nat)>)
    requires
        dealloc_effect(s0, x, o, s1),
    ensures
        overlaps_free(s1, x, o),
{
    let m = merge_block(s0, x, o);
    lemma_pow2_pos(o);
    lemma_pow2_pos(m.1);
    assert(s1.contains(m) && !blocks_disjoint(m, (x, o)));
}

/// Conservation: the bytes on the free lists plus the bytes of the blocks
/// handed out and not yet returned equal the bytes of the regions added
/// (every operation keeps `wf`).
pub proof fn lemma_conservation(a: &BuddyAllocator)
    requires
        a.wf(),
    ensures
        a.free_bytes() + a.outstanding_bytes() == a.total_bytes(),
        a.allocated_bytes() == a.outstanding_bytes(),
{
}

/// Free bytes in blocks of order `hi` or more are part of those of order
/// `lo` or more.
pub proof fn lemma_free_from_monotone(a: &BuddyAllocator, lo: nat, hi: nat)
    requires
        a.wf(),
        MIN_ORDER <= lo <= hi,
    ensures
        a.free_from(lo) >= a.free_from(hi),
    decreases hi - lo,
{
    if lo < hi {
        lemma_free_from_monotone(a, lo + 1, hi);
        if lo < MAX_ORDER + 1 {
        }
    }
}

/// Non-overlap: the blocks handed out and not yet returned never overlap one
/// another nor any free block, and each is aligned to its size.
pub proof fn lemma_outstanding_disjoint(a: &BuddyAllocator)
    requires
        a.wf(),
    ensures
        forall|x: (u64, nat), y: (u64, nat)| #[trigger] a.outstanding().contains(x) && #[trigger] a.outstanding().contains(y)
            && x != y ==> x.0 + pow2(x.1) <= y.0 || y.0 + pow2(y.1) <= x.0,
        forall|x: (u64, nat), y: (u64, nat)| #[trigger] a.outstanding().contains(x) && #[trigger] a.free_set().contains(y)
            ==> x.0 + pow2(x.1) <= y.0 || y.0 + pow2(y.1) <= x.0,
        forall|x: (u64, nat)| #[trigger] a.outstanding().contains(x) ==> aligned(x.0 as int, x.1),
{
}

/// A block handed out is not free: this is what lets a caller who holds the
/// buddy of a block meet `lemma_coalescing`'s condition on the first free.
pub proof fn lemma_outstanding_not_free(a: &BuddyAllocator, x: (u64, nat))
    requires
        a.wf(),
        a.outstanding().contains(x),
    ensures
        !a.free_set().contains(x),
{
    lemma_pow2_pos(x.1);
    if a.free_set().contains(x) {
        assert(blocks_disjoint(x, x));
    }
}

/// Free blocks never overlap one another, and each is aligned to its size.
/// (`allocate` also ensures that the block it hands out overlaps no free block.)
pub proof fn lemma_free_blocks_disjoint_and_aligned(a: &BuddyAllocator)
    requires
        a.wf(),
    ensures
        all_disjoint(a.free_set()),
        forall|b: (u64, nat)| #[trigger] a.free_set().contains(b) ==> aligned(b.0 as int, b.1),
{
    assert forall|b: (u64, nat)| #[trigger] a.free_set().contains(b) implies aligned(b.0 as int, b.1) by {
        let i = b.1 - MIN_ORDER;
        let j = choose|j: int| 0 <= j < a.lists()[i].len() && a.lists()[i][j] == b.0;
        assert(aligned(a.lists()[i][j] as int, (i + MIN_ORDER) as nat));
    }
}

} // verus!
