use vstd::prelude::*;
use crate::allocator::buddy_allocator::{BuddyAllocator, MAX_PHYS_ADDR, MIN_ORDER, MAX_ORDER, same_memory, lemma_free_from_monotone};
use vstd::arithmetic::power2::{pow2, lemma2_to64};
use vstd::arithmetic::div_mod::lemma_mod_multiples_basic;
use crate::interrupts::pic::{initialize, enable_irq, PIC1_DATA, PIC2_DATA, CMD_INIT, PIC1_COMMAND, PIC2_COMMAND, PIC1_OFFSET, PIC2_OFFSET};
use crate::memory::address_space::{AddressSpace, DemandMapping, USER_CODE_BASE, USER_STACK_BASE};
use crate::memory::vma::{Vma, VmaKind, vma_wf, vmas_overlap, add_outcome, VmaError};
use crate::process::scheduler::{Scheduler, Process, Pid, highest_nonempty};
use crate::interrupts::exception::ExceptionStackFrame;

verus! {

/// Page-table flags of user code: present, user.
pub const USER_CODE_FLAGS: u64 = 0x5;
/// Page-table flags of user stacks: present, writable, user.
pub const USER_STACK_FLAGS: u64 = 0x7;
/// Pages of a user stack.
pub const USER_STACK_PAGES: usize = 16;
/// Distance between the stacks of successive user processes.
pub const USER_STACK_STRIDE: u64 = 0x10000;
/// Buddy order of a kernel stack (16 KiB).
pub const KERNEL_STACK_ORDER: usize = 14;

/// Why a process could not be set up.
#[derive(Clone, Copy, Debug, PartialEq, Eq, Structural)]
pub enum InitError {
    OutOfMemory,
    /// The stack of this process would leave user space.
    BadLayout,
    /// No process id is left.
    NoPid,
}

/// Top of a fresh kernel stack: a 16 KiB block from the buddy, seen through
/// the physical-memory window at `phys_offset`. `None`, taking nothing, when
/// the window would overflow or the buddy has no block that large.
pub fn allocate_kernel_stack(buddy: &mut BuddyAllocator, phys_offset: u64) -> (r: Option<u64>)
    requires
        old(buddy).wf(),
    ensures
        final(buddy).wf(),
        final(buddy).total_bytes() == old(buddy).total_bytes(),
        old(buddy).free_from(KERNEL_STACK_ORDER as nat) > 0 && phys_offset <= u64::MAX - MAX_PHYS_ADDR - 16384
            ==> r.is_some(),
        r.is_none() ==> same_memory(*old(buddy), *final(buddy)),
        r.is_some() ==> r.unwrap() >= 8 && exists|a: u64| #![trigger final(buddy).outstanding().contains((a, KERNEL_STACK_ORDER as nat))]
            final(buddy).outstanding() == old(buddy).outstanding().insert((a, KERNEL_STACK_ORDER as nat))
            && r.unwrap() == phys_offset + a + 16384,
        r.is_some() ==> forall|k: nat| MIN_ORDER <= k <= KERNEL_STACK_ORDER ==>
            #[trigger] final(buddy).free_from(k) + pow2(KERNEL_STACK_ORDER as nat) == old(buddy).free_from(k),
        r.is_some() ==> forall|k: nat| KERNEL_STACK_ORDER < k <= MAX_ORDER ==>
            #[trigger] final(buddy).free_from(k) + pow2(k) >= old(buddy).free_from(k),
{
    if phys_offset > u64::MAX - MAX_PHYS_ADDR - 16384 {
        return None;
    }
    let phys = buddy.allocate(KERNEL_STACK_ORDER)?;
    proof {
        assert(final(buddy).outstanding().contains((phys, KERNEL_STACK_ORDER as nat)));
    }
    Some(phys_offset + phys + 16384)
}

/// The process that runs when nothing else can: pid 0, priority 0, in the
/// kernel's address space.
pub fn create_idle_process(sched: &mut Scheduler, entry: u64, kernel_stack: u64, kernel_root: u64)
    requires
        old(sched).wf(),
        kernel_stack >= 8,
    ensures
        final(sched).wf(),
        final(sched).queues()[0].len() == old(sched).queues()[0].len() + 1,
        final(sched).queues()[0].last().pid == Pid(0),
        final(sched).pid_counter() == old(sched).pid_counter(),
{
    let mut p = Process::new_kernel(Pid(0), entry, kernel_stack, AddressSpace::kernel(kernel_root));
    p.set_name(vec![105u8, 100u8, 108u8, 101u8].as_slice());
    p.set_priority(0);
    sched.add_process(p);
}

/// The shell: a kernel process of priority 8.
pub fn create_shell_process(sched: &mut Scheduler, entry: u64, kernel_stack: u64, kernel_root: u64) -> (r: Result<Pid, InitError>)
    requires
        old(sched).wf(),
        kernel_stack >= 8,
    ensures
        final(sched).wf(),
        old(sched).pid_counter() < usize::MAX ==> r.is_ok(),
        r.is_ok() ==> final(sched).queues()[8].len() == old(sched).queues()[8].len() + 1
            && final(sched).queues()[8].last().pid == r.unwrap()
            && final(sched).pid_counter() == old(sched).pid_counter() + 1,
{
    if sched.pid_counter_exec() == usize::MAX {
        return Err(InitError::NoPid);
    }
    let pid = sched.allocate_pid();
    let mut p = Process::new_kernel(pid, entry, kernel_stack, AddressSpace::kernel(kernel_root));
    p.set_name(vec![115u8, 104u8, 101u8, 108u8, 108u8].as_slice());
    p.set_priority(8);
    sched.add_process(p);
    Ok(pid)
}

/// A user process `index`: its own address space with one Code area of one
/// page at 0x400000 (mapped now; the caller copies the program into the
/// returned frame) and a 16-page Anonymous stack at
/// 0x7100_0000_0000 + index * 0x10000, paged on demand. It starts at
/// 0x400000 with its stack pointer 8 bytes below the stack's top, priority 5.
/// Returns its id, its root table frame (which the caller fills with the
/// kernel's shared entries) and its code page.
#[verifier::rlimit(60)]
pub fn create_user_process(sched: &mut Scheduler, buddy: &mut BuddyAllocator, index: u64, kernel_stack: u64)
    -> (r: Result<(Pid, u64, DemandMapping), InitError>)
    requires
        old(sched).wf(),
        old(buddy).wf(),
    ensures
        final(sched).wf(),
        final(buddy).wf(),
        index <= 0x1000 && old(buddy).free_from(MIN_ORDER as nat) >= 8192 && old(sched).pid_counter() < usize::MAX
            ==> r.is_ok(),
        final(buddy).total_bytes() == old(buddy).total_bytes(),
        r.is_ok() ==> final(sched).pid_counter() == old(sched).pid_counter() + 1,
        r.is_ok() ==> forall|k: nat| MIN_ORDER <= k <= MAX_ORDER ==>
            #[trigger] final(buddy).free_from(k) + 2 * pow2(k) >= old(buddy).free_from(k),
        r.is_ok() ==> final(sched).queues()[5].last().address_space.vma_list().has(code_area())
            && final(sched).queues()[5].last().address_space.vma_list().has(stack_area(index)),
        r.is_ok() ==> r.unwrap().2.page == USER_CODE_BASE && r.unwrap().2.flags == USER_CODE_FLAGS
            && final(sched).queues()[5].last().address_space.root_spec() == r.unwrap().1
            && final(sched).queues()[5].len() == old(sched).queues()[5].len() + 1
            && final(sched).queues()[5].last().pid == r.unwrap().0
            && final(sched).queues()[5].last().trapframe.rip == USER_CODE_BASE
            && final(sched).queues()[5].last().trapframe.rsp == USER_STACK_BASE + index * USER_STACK_STRIDE + 16 * 4096 - 8,
{
    if index > 0x1000 {
        return Err(InitError::BadLayout);
    }
    if sched.pid_counter_exec() == usize::MAX {
        return Err(InitError::NoPid);
    }
    proof {
        lemma2_to64();
    }
    let ghost b0 = *buddy;
    let mut space = match AddressSpace::new_user(buddy) {
        Ok(s) => s,
        Err(_) => return Err(InitError::OutOfMemory),
    };
    let ghost b1 = *buddy;
    let code = Vma { start: USER_CODE_BASE, size_pages: 1, flags: USER_CODE_FLAGS, kind: VmaKind::Code };
    let stack_base = USER_STACK_BASE + index * USER_STACK_STRIDE;
    let stack = Vma { start: stack_base, size_pages: USER_STACK_PAGES, flags: USER_STACK_FLAGS, kind: VmaKind::Anonymous };
    proof {
        assert(code == code_area());
        assert(stack == stack_area(index));
        lemma_areas_wf(index);
        let e = space.vma_list().slots();
        assert(e.len() == 16);
        assert(e[0].is_none());
    }
    let ghost s0 = space.vma_list().slots();
    let rc = space.add_vma(code);
    proof {
        lemma_add_succeeds(s0, code, space.vma_list().slots(), rc, 0);
    }
    if rc.is_err() {
        return Err(InitError::BadLayout);
    }
    let ghost s1 = space.vma_list().slots();
    proof {
        let i = choose|i: int| 0 <= i < s0.len() && (#[trigger] s0[i]).is_none()
            && s1 == s0.update(i, Some(code))
            && forall|j: int| 0 <= j < i ==> (#[trigger] s0[j]).is_some();
        assert(s1[if s1[0].is_none() { 0int } else { 1int }].is_none());
        assert forall|k: int| 0 <= k < s1.len() && (#[trigger] s1[k]).is_some() implies !vmas_overlap(s1[k].unwrap(), stack) by {
            assert(k == i);
        }
    }
    let rs = space.add_vma(stack);
    proof {
        lemma_add_succeeds(s1, stack, space.vma_list().slots(), rs, if s1[0].is_none() { 0int } else { 1int });
    }
    if rs.is_err() {
        return Err(InitError::BadLayout);
    }
    proof {
        assert(space.vma_list().has(code));
        assert(vma_contains_code(code));
        assert(!space.is_mapped(USER_CODE_BASE));
    }
    let mapping = match space.map_user_page(USER_CODE_BASE, USER_CODE_FLAGS, buddy) {
        Ok(m) => m,
        Err(_) => return Err(InitError::OutOfMemory),
    };
    proof {
        assert forall|k: nat| MIN_ORDER <= k <= MAX_ORDER implies
            #[trigger] buddy.free_from(k) + 2 * pow2(k) >= b0.free_from(k) by {
            assert(b1.free_from(k) + pow2(k) >= b0.free_from(k));
            assert(buddy.free_from(k) + pow2(k) >= b1.free_from(k));
        }
    }
    let pid = sched.allocate_pid();
    let top = stack_base + 16 * 4096 - 8;
    let root = space.root_frame();
    let mut p = Process::new_user(pid, USER_CODE_BASE, top, kernel_stack, space);
    let digit: u8 = if index < 10 { 48u8 + index as u8 } else { 63u8 };
    p.set_name(vec![117u8, 115u8, 101u8, 114u8, 95u8, digit].as_slice());
    p.set_priority(5);
    sched.add_process(p);
    Ok((pid, root, mapping))
}

/// The Code area of every user process: one page at 0x400000.
pub open spec fn code_area() -> Vma {
    Vma { start: USER_CODE_BASE, size_pages: 1, flags: USER_CODE_FLAGS, kind: VmaKind::Code }
}

/// The Anonymous stack area of user process `index`: 16 pages at
/// 0x7100_0000_0000 + index * 0x10000.
pub open spec fn stack_area(index: u64) -> Vma {
    Vma {
        start: (USER_STACK_BASE + index * USER_STACK_STRIDE) as u64,
        size_pages: USER_STACK_PAGES,
        flags: USER_STACK_FLAGS,
        kind: VmaKind::Anonymous,
    }
}

pub open spec fn vma_contains_code(v: Vma) -> bool {
    crate::memory::vma::vma_contains(v, USER_CODE_BASE as int)
}

proof fn lemma_areas_wf(index: u64)
    requires
        index <= 0x1000,
    ensures
        vma_wf(code_area()),
        vma_wf(stack_area(index)),
        !vmas_overlap(code_area(), stack_area(index)),
        !vmas_overlap(stack_area(index), code_area()),
{
    let t = (USER_STACK_BASE / 4096 + index * 16) as int;
    assert(USER_STACK_BASE + index * USER_STACK_STRIDE == t * 4096);
    lemma_mod_multiples_basic(t, 4096);
    assert(0x400000int == 1024 * 4096);
    lemma_mod_multiples_basic(1024, 4096);
}

/// Registering an area that is well formed and overlaps none, in slots with
/// a free one, succeeds.
proof fn lemma_add_succeeds(before: Seq<Option<Vma>>, vma: Vma, after: Seq<Option<Vma>>, r: Result<(), VmaError>, free: int)
    requires
        add_outcome(before, vma, after, r),
        vma_wf(vma),
        forall|k: int| 0 <= k < before.len() && (#[trigger] before[k]).is_some() ==> !vmas_overlap(before[k].unwrap(), vma),
        0 <= free < before.len(),
        before[free].is_none(),
    ensures
        r.is_ok(),
{
    if r.is_err() {
        assert(!(forall|i: int| 0 <= i < before.len() ==> (#[trigger] before[i]).is_some()));
        match r {
            Err(VmaError::Invalid) => {},
            Err(VmaError::Overlap) => {},
            Err(VmaError::Full) => {},
            Err(VmaError::BadPid) => {},
            Ok(()) => {},
        }
    }
}

/// The port writes that set up the interrupt controllers: the PIC
/// initialisation, then the timer (IRQ 0) and keyboard (IRQ 1) lines
/// unmasked on the master PIC.
pub fn init_hardware_interrupts(pic1_mask: u8, pic2_mask: u8) -> (r: Vec<(u16, u8)>)
    ensures
        r@.len() == 11,
        r@.subrange(0, 10) == initialize_spec(pic1_mask, pic2_mask),
        r@[10] == (PIC1_DATA, pic1_mask & !(1u8 << 0u8) & !(1u8 << 1u8)),
{
    let mut r = initialize(pic1_mask, pic2_mask);
    let (_, m0) = enable_irq(0, pic1_mask);
    let (port, m1) = enable_irq(1, m0);
    let ghost r0 = r@;
    r.push((port, m1));
    proof {
        assert(r@.subrange(0, 10) =~= r0);
    }
    r
}

pub open spec fn initialize_spec(pic1_mask: u8, pic2_mask: u8) -> Seq<(u16, u8)> {
    seq![
        (PIC1_COMMAND, CMD_INIT), (PIC2_COMMAND, CMD_INIT),
        (PIC1_DATA, PIC1_OFFSET), (PIC2_DATA, PIC2_OFFSET),
        (PIC1_DATA, 4u8), (PIC2_DATA, 2u8),
        (PIC1_DATA, 1u8), (PIC2_DATA, 1u8),
        (PIC1_DATA, pic1_mask), (PIC2_DATA, pic2_mask),
    ]
}

/// Entry points and stacks the boot code hands over.
pub struct BootImage {
    pub idle_entry: u64,
    pub shell_entry: u64,
    pub kernel_root: u64,
    pub phys_offset: u64,
}

/// Creates every process: idle, two user processes, the shell. Returns
/// the root frames and code pages of the user processes, which the caller
/// fills.
#[verifier::rlimit(60)]
pub fn init_all(sched: &mut Scheduler, buddy: &mut BuddyAllocator, boot: &BootImage) -> (r: Result<Vec<(u64, DemandMapping)>, InitError>)
    requires
        old(sched).wf(),
        old(buddy).wf(),
    ensures
        final(sched).wf(),
        final(buddy).wf(),
        r.is_ok() ==> r.unwrap()@.len() == 2,
        old(buddy).free_from(KERNEL_STACK_ORDER as nat) >= 8 * 16384
            && old(sched).pid_counter() + 3 <= usize::MAX
            && boot.phys_offset <= u64::MAX - MAX_PHYS_ADDR - 16384 ==> r.is_ok(),
{
    let ghost enough = old(buddy).free_from(KERNEL_STACK_ORDER as nat) >= 8 * 16384
        && old(sched).pid_counter() + 3 <= usize::MAX
        && boot.phys_offset <= u64::MAX - MAX_PHYS_ADDR - 16384;
    proof {
        lemma2_to64();
    }
    let ghost b0 = *buddy;
    let ks = match allocate_kernel_stack(buddy, boot.phys_offset) {
        Some(k) => k,
        None => return Err(InitError::OutOfMemory),
    };
    proof {
        assert(buddy.free_from(KERNEL_STACK_ORDER as nat) + pow2(KERNEL_STACK_ORDER as nat)
            == b0.free_from(KERNEL_STACK_ORDER as nat));
    }
    create_idle_process(sched, boot.idle_entry, ks, boot.kernel_root);
    let mut pages: Vec<(u64, DemandMapping)> = Vec::new();
    let mut i: u64 = 0;
    while i < 2
        invariant
            i <= 2,
            sched.wf(),
            buddy.wf(),
            pages@.len() == i,
            pow2(14) == 16384 && pow2(12) == 4096,
            enough == (old(buddy).free_from(KERNEL_STACK_ORDER as nat) >= 8 * 16384
                && old(sched).pid_counter() + 3 <= usize::MAX
                && boot.phys_offset <= u64::MAX - MAX_PHYS_ADDR - 16384),
            enough ==> buddy.free_from(KERNEL_STACK_ORDER as nat) + 3 * 16384 * i >= 7 * 16384,
            enough ==> sched.pid_counter() + 3 - i <= usize::MAX,
            enough ==> boot.phys_offset <= u64::MAX - MAX_PHYS_ADDR - 16384,
        decreases 2 - i,
    {
        let ghost b0 = *buddy;
        proof {
            if enough {
                assert(i <= 1);
                assert(b0.free_from(KERNEL_STACK_ORDER as nat) > 0) by (nonlinear_arith)
                    requires
                        b0.free_from(KERNEL_STACK_ORDER as nat) + 3 * 16384 * i >= 7 * 16384,
                        i <= 1;
            }
        }
        let ks = match allocate_kernel_stack(buddy, boot.phys_offset) {
            Some(k) => k,
            None => return Err(InitError::OutOfMemory),
        };
        proof {
            assert(buddy.free_from(KERNEL_STACK_ORDER as nat) + pow2(KERNEL_STACK_ORDER as nat)
                == b0.free_from(KERNEL_STACK_ORDER as nat));
            if enough {
                assert(b0.free_from(KERNEL_STACK_ORDER as nat) + 3 * 16384 * i >= 7 * 16384);
                assert(i <= 1);
                assert(buddy.free_from(KERNEL_STACK_ORDER as nat) >= 16384) by (nonlinear_arith)
                    requires
                        buddy.free_from(KERNEL_STACK_ORDER as nat) + 16384 == b0.free_from(KERNEL_STACK_ORDER as nat),
                        b0.free_from(KERNEL_STACK_ORDER as nat) + 3 * 16384 * i >= 7 * 16384,
                        i <= 1;
                lemma_free_from_monotone(buddy, MIN_ORDER as nat, KERNEL_STACK_ORDER as nat);
                assert(buddy.free_from(MIN_ORDER as nat) >= 8192);
                assert(sched.pid_counter() < usize::MAX);
            }
        }
        let ghost b1 = *buddy;
        let (_, root, m) = create_user_process(sched, buddy, i, ks)?;
        proof {
            assert(buddy.free_from(KERNEL_STACK_ORDER as nat) + 2 * pow2(KERNEL_STACK_ORDER as nat)
                >= b1.free_from(KERNEL_STACK_ORDER as nat));
            if enough {
                assert(buddy.free_from(KERNEL_STACK_ORDER as nat) + 3 * 16384 * (i + 1) >= 7 * 16384) by (nonlinear_arith)
                    requires
                        buddy.free_from(KERNEL_STACK_ORDER as nat) + 2 * 16384 >= b1.free_from(KERNEL_STACK_ORDER as nat),
                        b1.free_from(KERNEL_STACK_ORDER as nat) + 16384 == b0.free_from(KERNEL_STACK_ORDER as nat),
                        b0.free_from(KERNEL_STACK_ORDER as nat) + 3 * 16384 * i >= 7 * 16384;
            }
        }
        pages.push((root, m));
        i = i + 1;
    }
    proof {
        if enough {
            assert(buddy.free_from(KERNEL_STACK_ORDER as nat) > 0);
        }
    }
    let ks = match allocate_kernel_stack(buddy, boot.phys_offset) {
        Some(k) => k,
        None => return Err(InitError::OutOfMemory),
    };
    create_shell_process(sched, boot.shell_entry, ks, boot.kernel_root)?;
    Ok(pages)
}

/// A user-mode exception: kills the running process and points the
/// exception's return frame at the next Ready process. False, with the
/// frame untouched, when no process is Ready.
pub fn kill_current_user_process(sched: &mut Scheduler, sf: &mut ExceptionStackFrame) -> (r: bool)
    requires
        old(sched).wf(),
    ensures
        final(sched).wf(),
        r == (highest_nonempty(old(sched).queues(), 10) >= 0),
        !r ==> *final(sf) == *old(sf),
        r ==> ({
            let t = old(sched).queues()[highest_nonempty(old(sched).queues(), 10)][0].trapframe;
            &&& final(sf).instruction_pointer == t.rip
            &&& final(sf).code_segment == t.cs
            &&& final(sf).cpu_flags == t.rflags
            &&& final(sf).stack_pointer == t.rsp
            &&& final(sf).stack_segment == t.ss
        }),
{
    match sched.kill_and_switch() {
        None => false,
        Some(f) => {
            sf.instruction_pointer = f.rip;
            sf.code_segment = f.cs;
            sf.cpu_flags = f.rflags;
            sf.stack_pointer = f.rsp;
            sf.stack_segment = f.ss;
            true
        },
    }
}

/// For every process, its id with its open descriptors and their device
/// names: the running process, the run queues, then the wait queue.
pub fn debug_file_descriptors(sched: &Scheduler) -> (r: Vec<(usize, usize, &'static str)>)
    requires
        sched.wf(),
{
    sched.open_files()
}

} // verus!
