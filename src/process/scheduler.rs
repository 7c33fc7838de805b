use vstd::prelude::*;
use crate::memory::address_space::{AddressSpace, DemandMapping, map_demand_page};
use crate::memory::demand_paging::FaultReason;
use crate::allocator::buddy_allocator::{BuddyAllocator, MIN_ORDER, took_frame};
use crate::memory::vma::{Vma, vma_contains};
use crate::process::file::{FileDescriptorTable, FileError, Device, DeviceKind, kind_of, output_of};
use crate::process::trapframe::{TrapFrame, IretFrame};

verus! {

/// Priority levels 0 (idle only) to 10.
pub const NUM_PRIORITIES: usize = 11;
pub const MAX_PRIORITY: u8 = 10;
pub const BASE_QUANTUM: u32 = 2;
pub const PRIORITY_QUANTUM_BONUS: u32 = 1;
/// Every this many ticks, waiting processes are aged.
pub const AGING_EPOCH: u32 = 50;
/// Decay never takes a process below this priority (idle excepted).
pub const MIN_EFFECTIVE_PRIORITY: u8 = 1;

#[derive(Clone, Copy, Debug, PartialEq, Eq, Structural)]
pub struct Pid(pub usize);

#[derive(Clone, Copy, Debug, PartialEq, Eq, Structural)]
pub enum ProcessState {
    Ready,
    Running,
    Blocked,
    Zombie,
}

#[derive(Clone, Copy, Debug, PartialEq, Eq, Structural)]
pub enum PrivilegeLevel {
    Kernel,
    User,
}

/// A process control block.
pub struct Process {
    pub pid: Pid,
    pub state: ProcessState,
    pub privilege: PrivilegeLevel,
    /// Base priority, 0..=10.
    pub priority: u8,
    /// The priority the scheduler uses; never above `priority`.
    pub effective_priority: u8,
    pub name: Vec<u8>,
    pub trapframe: TrapFrame,
    pub kernel_stack: u64,
    pub address_space: AddressSpace,
    pub files: FileDescriptorTable,
}

pub open spec fn process_wf(p: Process) -> bool {
    &&& p.effective_priority <= p.priority <= MAX_PRIORITY
    &&& p.files.wf()
    &&& p.address_space.wf()
}

/// Ticks granted to a process of effective priority `e`.
pub open spec fn quantum(e: u8) -> u32 {
    (BASE_QUANTUM + e * PRIORITY_QUANTUM_BONUS) as u32
}

impl Process {
    /// A kernel process (priority 5, stdio open) that starts at `entry` on
    /// the kernel stack whose top is `kernel_stack`.
    pub fn new_kernel(pid: Pid, entry: u64, kernel_stack: u64, address_space: AddressSpace) -> (r: Self)
        requires
            kernel_stack >= 8,
            address_space.wf(),
        ensures
            process_wf(r),
            r.pid == pid,
            r.state == ProcessState::Ready,
            r.privilege == PrivilegeLevel::Kernel,
            r.priority == 5 && r.effective_priority == 5,
            r.trapframe == TrapFrame::new_kernel_spec(entry, kernel_stack),
            r.kernel_stack == kernel_stack,
            r.address_space == address_space,
            r.files.wf(),
            r.files.is_open(0) && kind_of(r.files.slots()[0].unwrap()) == DeviceKind::Null,
            r.files.is_open(1) && kind_of(r.files.slots()[1].unwrap()) == DeviceKind::Console,
            r.files.is_open(2) && kind_of(r.files.slots()[2].unwrap()) == DeviceKind::Console,
            forall|i: int| 3 <= i < 16 ==> !r.files.is_open(i),
    {
        Process {
            pid,
            state: ProcessState::Ready,
            privilege: PrivilegeLevel::Kernel,
            priority: 5,
            effective_priority: 5,
            name: Vec::new(),
            trapframe: TrapFrame::new_kernel(entry, kernel_stack),
            kernel_stack,
            address_space,
            files: FileDescriptorTable::new_with_stdio(),
        }
    }

    /// A user process (priority 5, stdio open) that starts at `entry` with
    /// stack pointer `user_stack`.
    pub fn new_user(pid: Pid, entry: u64, user_stack: u64, kernel_stack: u64, address_space: AddressSpace) -> (r: Self)
        requires
            address_space.wf(),
        ensures
            process_wf(r),
            r.pid == pid,
            r.state == ProcessState::Ready,
            r.privilege == PrivilegeLevel::User,
            r.priority == 5 && r.effective_priority == 5,
            r.trapframe == TrapFrame::new_user_process_spec(entry, user_stack),
            r.kernel_stack == kernel_stack,
            r.address_space == address_space,
            r.files.wf(),
            r.files.is_open(0) && kind_of(r.files.slots()[0].unwrap()) == DeviceKind::Null,
            r.files.is_open(1) && kind_of(r.files.slots()[1].unwrap()) == DeviceKind::Console,
            r.files.is_open(2) && kind_of(r.files.slots()[2].unwrap()) == DeviceKind::Console,
            forall|i: int| 3 <= i < 16 ==> !r.files.is_open(i),
    {
        Process {
            pid,
            state: ProcessState::Ready,
            privilege: PrivilegeLevel::User,
            priority: 5,
            effective_priority: 5,
            name: Vec::new(),
            trapframe: TrapFrame::new_user_process(entry, user_stack),
            kernel_stack,
            address_space,
            files: FileDescriptorTable::new_with_stdio(),
        }
    }

    /// Sets the name to the first 15 bytes of `name`.
    pub fn set_name(&mut self, name: &[u8])
        ensures
            final(self).name@ == name@.subrange(0, if name@.len() < 15 { name@.len() as int } else { 15 }),
            final(self).pid == old(self).pid,
            final(self).state == old(self).state,
            final(self).priority == old(self).priority,
            final(self).effective_priority == old(self).effective_priority,
            final(self).files == old(self).files,
            final(self).address_space == old(self).address_space,
            final(self).trapframe == old(self).trapframe,
            final(self).kernel_stack == old(self).kernel_stack,
            final(self).privilege == old(self).privilege,
    {
        let len: usize = if name.len() < 15 { name.len() } else { 15 };
        let mut v: Vec<u8> = Vec::new();
        let mut i: usize = 0;
        while i < len
            invariant
                i <= len <= name@.len(),
                v@ == name@.subrange(0, i as int),
            decreases len - i,
        {
            v.push(name[i]);
            i = i + 1;
            proof {
                assert(v@ =~= name@.subrange(0, i as int));
            }
        }
        self.name = v;
    }

    /// Sets the base priority, capped at 10; the effective priority is
    /// lowered to it when above.
    pub fn set_priority(&mut self, priority: u8)
        ensures
            final(self).priority == (if priority < MAX_PRIORITY { priority } else { MAX_PRIORITY }),
            final(self).effective_priority == (if old(self).effective_priority <= final(self).priority {
                old(self).effective_priority } else { final(self).priority }),
            final(self).pid == old(self).pid,
            final(self).state == old(self).state,
            final(self).files == old(self).files,
            final(self).address_space == old(self).address_space,
            final(self).trapframe == old(self).trapframe,
            final(self).kernel_stack == old(self).kernel_stack,
            final(self).privilege == old(self).privilege,
            final(self).name == old(self).name,
    {
        self.priority = if priority < MAX_PRIORITY { priority } else { MAX_PRIORITY };
        if self.effective_priority > self.priority {
            self.effective_priority = self.priority;
        }
    }
}

impl TrapFrame {
    pub open spec fn new_kernel_spec(entry: u64, kernel_stack: u64) -> TrapFrame {
        TrapFrame {
            rax: 0, rbx: 0, rcx: 0, rdx: 0, rsi: 0, rdi: 0, rbp: 0, r8: 0, r9: 0, r10: 0,
            r11: 0, r12: 0, r13: 0, r14: 0, r15: 0, rip: entry, cs: 0x08, rflags: 0x200,
            rsp: (kernel_stack - 8) as u64, ss: 0x10,
        }
    }

    pub open spec fn new_user_process_spec(entry: u64, user_stack: u64) -> TrapFrame {
        TrapFrame {
            rax: 0, rbx: 0, rcx: 0, rdx: 0, rsi: 0, rdi: 0, rbp: 0, r8: 0, r9: 0, r10: 0,
            r11: 0, r12: 0, r13: 0, r14: 0, r15: 0, rip: entry, cs: 0x23, rflags: 0x200,
            rsp: user_stack, ss: 0x1b,
        }
    }
}


pub open spec fn with_state(p: Process, s: ProcessState) -> Process {
    Process { state: s, ..p }
}

/// A process of effective priority `q` waiting in run queue `q`.
pub open spec fn queued_wf(p: Process, q: int) -> bool {
    &&& process_wf(p)
    &&& p.state == ProcessState::Ready
    &&& p.effective_priority == q
}

/// Does aging raise this process? (Not idle, and below its base priority.)
pub open spec fn boosted(p: Process) -> bool {
    p.pid.0 != 0 && p.effective_priority < p.priority
}

/// A process after one aging step.
pub open spec fn aged(p: Process) -> Process {
    if boosted(p) {
        Process { effective_priority: (p.effective_priority + 1) as u8, ..p }
    } else {
        p
    }
}

/// A preempted process put back: its registers saved, Ready, and its
/// effective priority lowered by one (idle, and priority 1, excepted).
pub open spec fn decayed(p: Process, tf: TrapFrame) -> Process {
    Process {
        trapframe: tf,
        state: ProcessState::Ready,
        effective_priority: if p.pid.0 != 0 && p.effective_priority > MIN_EFFECTIVE_PRIORITY {
            (p.effective_priority - 1) as u8
        } else {
            p.effective_priority
        },
        ..p
    }
}

/// The highest non-empty run queue at or below `q`, or -1.
pub open spec fn highest_nonempty(queues: Seq<Seq<Process>>, q: int) -> int
    decreases q + 1,
{
    if q < 0 {
        -1
    } else if queues[q].len() > 0 {
        q
    } else {
        highest_nonempty(queues, q - 1)
    }
}

/// Run queue `q` after an aging step: its own processes that stay, then
/// those raised from queue `q - 1`.
pub open spec fn aged_queue(queues: Seq<Seq<Process>>, q: int) -> Seq<Process> {
    queues[q].filter(|p: Process| !boosted(p)) + (if q > 0 {
        queues[q - 1].filter(|p: Process| boosted(p)).map_values(|p: Process| aged(p))
    } else {
        Seq::empty()
    })
}

/// Time-remaining counter after `n` more ticks.
pub open spec fn remaining_after(r: nat, n: nat) -> nat {
    if n >= r { 0 } else { (r - n) as nat }
}

/// What the trampoline needs to resume a process: its saved registers, its
/// kernel stack top (for the TSS) and its page-table root (for CR3).
#[derive(Clone, Copy, Debug, PartialEq, Eq, Structural)]
pub struct SwitchTarget {
    pub pid: Pid,
    pub trapframe: TrapFrame,
    pub kernel_stack: u64,
    pub root: u64,
}

pub open spec fn target_of(p: Process) -> SwitchTarget {
    SwitchTarget {
        pid: p.pid,
        trapframe: p.trapframe,
        kernel_stack: p.kernel_stack,
        root: p.address_space.root_spec(),
    }
}

/// Run queues per effective priority (Ready processes only), a wait queue
/// (Blocked and Zombie), the running process, the ticks left in its slice,
/// a global tick count and the next process id.
pub struct Scheduler {
    run_queues: Vec<Vec<Process>>,
    wait_queue: Vec<Process>,
    running: Option<Process>,
    remaining_ticks: u32,
    global_ticks: u32,
    next_pid: usize,
}

impl Scheduler {
    pub closed spec fn queues(&self) -> Seq<Seq<Process>> {
        self.run_queues@.map_values(|q: Vec<Process>| q@)
    }

    pub closed spec fn waiting(&self) -> Seq<Process> {
        self.wait_queue@
    }

    pub closed spec fn current(&self) -> Option<Process> {
        self.running
    }

    pub closed spec fn remaining(&self) -> nat {
        self.remaining_ticks as nat
    }

    pub closed spec fn ticks(&self) -> nat {
        self.global_ticks as nat
    }

    pub closed spec fn pid_counter(&self) -> nat {
        self.next_pid as nat
    }

    pub open spec fn wf(&self) -> bool {
        &&& self.queues().len() == NUM_PRIORITIES
        &&& forall|q: int, i: int| 0 <= q < NUM_PRIORITIES && 0 <= i < self.queues()[q].len()
                ==> queued_wf(#[trigger] self.queues()[q][i], q)
        &&& forall|i: int| 0 <= i < self.waiting().len() ==> process_wf(#[trigger] self.waiting()[i])
                && (self.waiting()[i].state == ProcessState::Blocked || self.waiting()[i].state == ProcessState::Zombie)
        &&& self.current().is_some() ==> process_wf(self.current().unwrap())
                && self.current().unwrap().state == ProcessState::Running
    }

    /// No process, process ids from 1.
    pub fn new() -> (r: Self)
        ensures
            r.wf(),
            forall|q: int| 0 <= q < NUM_PRIORITIES ==> #[trigger] r.queues()[q].len() == 0,
            r.waiting().len() == 0,
            r.current().is_none(),
            r.remaining() == 0,
            r.ticks() == 0,
            r.pid_counter() == 1,
    {
        let mut run_queues: Vec<Vec<Process>> = Vec::new();
        let mut i: usize = 0;
        while i < NUM_PRIORITIES
            invariant
                i <= NUM_PRIORITIES,
                run_queues@.len() == i,
                forall|j: int| 0 <= j < i ==> (#[trigger] run_queues@[j])@.len() == 0,
            decreases NUM_PRIORITIES - i,
        {
            run_queues.push(Vec::new());
            i = i + 1;
        }
        let r = Scheduler {
            run_queues,
            wait_queue: Vec::new(),
            running: None,
            remaining_ticks: 0,
            global_ticks: 0,
            next_pid: 1,
        };
        proof {
            assert forall|q: int| 0 <= q < NUM_PRIORITIES implies #[trigger] r.queues()[q].len() == 0 by {
                assert(r.queues()[q] == run_queues@[q]@);
            }
        }
        r
    }

    /// Ticks granted to a process of effective priority `e`: 2 + e.
    pub fn quantum_for(effective_priority: u8) -> (r: u32)
        ensures
            r == quantum(effective_priority),
            r == 2 + effective_priority,
    {
        BASE_QUANTUM + (effective_priority as u32) * PRIORITY_QUANTUM_BONUS
    }

    /// The next process id to hand out.
    pub fn pid_counter_exec(&self) -> (r: usize)
        ensures
            r == self.pid_counter(),
    {
        self.next_pid
    }

    /// A fresh process id; ids increase and are never reused.
    pub fn allocate_pid(&mut self) -> (r: Pid)
        requires
            old(self).pid_counter() < usize::MAX,
        ensures
            r.0 == old(self).pid_counter(),
            final(self).pid_counter() == old(self).pid_counter() + 1,
            final(self).queues() == old(self).queues(),
            final(self).waiting() == old(self).waiting(),
            final(self).current() == old(self).current(),
            final(self).remaining() == old(self).remaining(),
            final(self).ticks() == old(self).ticks(),
    {
        let pid = Pid(self.next_pid);
        self.next_pid = self.next_pid + 1;
        pid
    }

    /// Makes `process` Ready at its base priority (capped at 10), at the
    /// back of that run queue.
    pub fn add_process(&mut self, process: Process)
        requires
            old(self).wf(),
            process.files.wf(),
            process.address_space.wf(),
        ensures
            final(self).wf(),
            ({
                let e = if process.priority < MAX_PRIORITY { process.priority } else { MAX_PRIORITY };
                let p = Process { state: ProcessState::Ready, priority: e, effective_priority: e, ..process };
                final(self).queues() == old(self).queues().update(e as int, old(self).queues()[e as int].push(p))
            }),
            final(self).waiting() == old(self).waiting(),
            final(self).current() == old(self).current(),
            final(self).remaining() == old(self).remaining(),
            final(self).ticks() == old(self).ticks(),
            final(self).pid_counter() == old(self).pid_counter(),
    {
        let mut process = process;
        let e: u8 = if process.priority < MAX_PRIORITY { process.priority } else { MAX_PRIORITY };
        process.state = ProcessState::Ready;
        process.priority = e;
        process.effective_priority = e;
        let ghost q0 = self.queues();
        self.run_queues[e as usize].push(process);
        proof {
            assert(self.queues() =~= q0.update(e as int, q0[e as int].push(process)));
            assert forall|q: int, i: int| 0 <= q < NUM_PRIORITIES && 0 <= i < self.queues()[q].len()
                implies queued_wf(#[trigger] self.queues()[q][i], q) by {
                if q == e as int && i == q0[q].len() {
                } else {
                    assert(self.queues()[q][i] == q0[q][i]);
                }
            }
        }
    }

    /// The id of the running process.
    pub fn current_pid(&self) -> (r: Option<Pid>)
        ensures
            r.is_some() <==> self.current().is_some(),
            r.is_some() ==> r.unwrap() == self.current().unwrap().pid,
    {
        match &self.running {
            Some(p) => Some(p.pid),
            None => None,
        }
    }

    /// The running process.
    pub fn running_ref(&self) -> (r: Option<&Process>)
        ensures
            r.is_some() <==> self.current().is_some(),
            r.is_some() ==> *r.unwrap() == self.current().unwrap(),
    {
        match &self.running {
            Some(p) => Some(p),
            None => None,
        }
    }

    /// Ids of all processes: the running one, then the run queues from
    /// priority 0 up, then the wait queue.
    pub fn iter_all(&self) -> (r: Vec<Pid>)
        requires
            self.wf(),
        ensures
            r@.len() == (if self.current().is_some() { 1int } else { 0 }) + self.waiting().len()
                + queue_total(self.queues(), NUM_PRIORITIES as int),
    {
        let mut r: Vec<Pid> = Vec::new();
        match &self.running {
            Some(p) => r.push(p.pid),
            None => {},
        }
        let ghost base = r@.len();
        let mut q: usize = 0;
        while q < NUM_PRIORITIES
            invariant
                q <= NUM_PRIORITIES,
                self.wf(),
                r@.len() == base + queue_total(self.queues(), q as int),
            decreases NUM_PRIORITIES - q,
        {
            let queue = &self.run_queues[q];
            proof {
                assert(self.queues()[q as int] == queue@);
            }
            let mut i: usize = 0;
            while i < queue.len()
                invariant
                    i <= queue@.len(),
                    q < NUM_PRIORITIES,
                    self.queues()[q as int] == queue@,
                    r@.len() == base + queue_total(self.queues(), q as int) + i,
                decreases queue@.len() - i,
            {
                r.push(queue[i].pid);
                i = i + 1;
            }
            q = q + 1;
        }
        let mut i: usize = 0;
        while i < self.wait_queue.len()
            invariant
                i <= self.waiting().len(),
                self.waiting() == self.wait_queue@,
                r@.len() == base + queue_total(self.queues(), NUM_PRIORITIES as int) + i,
            decreases self.waiting().len() - i,
        {
            r.push(self.wait_queue[i].pid);
            i = i + 1;
        }
        r
    }

    /// Takes the head of the highest non-empty run queue and makes it the
    /// running process, with a full time slice.
    fn pick_next(&mut self) -> (r: Option<SwitchTarget>)
        requires
            old(self).wf(),
            old(self).current().is_none(),
        ensures
            final(self).wf(),
            final(self).waiting() == old(self).waiting(),
            final(self).ticks() == old(self).ticks(),
            final(self).pid_counter() == old(self).pid_counter(),
            ({
                let h = highest_nonempty(old(self).queues(), 10);
                &&& h < 0 ==> r.is_none() && final(self).queues() == old(self).queues()
                        && final(self).current().is_none() && final(self).remaining() == old(self).remaining()
                &&& h >= 0 ==> ({
                    let p = old(self).queues()[h][0];
                    &&& r == Some(target_of(p))
                    &&& final(self).current() == Some(with_state(p, ProcessState::Running))
                    &&& final(self).queues() == old(self).queues().update(h, old(self).queues()[h].drop_first())
                    &&& final(self).remaining() == quantum(p.effective_priority)
                    &&& p.effective_priority == h
                })
            }),
    {
        let mut pri: usize = NUM_PRIORITIES;
        while pri > 0
            invariant
                pri <= NUM_PRIORITIES,
                self.wf(),
                self.current().is_none(),
                self.queues() == old(self).queues(),
                self.waiting() == old(self).waiting(),
                self.remaining() == old(self).remaining(),
                self.ticks() == old(self).ticks(),
                self.pid_counter() == old(self).pid_counter(),
                highest_nonempty(self.queues(), 10) == highest_nonempty(self.queues(), pri - 1),
            decreases pri,
        {
            pri = pri - 1;
            proof {
                assert(self.queues()[pri as int] == self.run_queues@[pri as int]@);
            }
            if self.run_queues[pri].len() > 0 {
                let ghost q0 = self.queues();
                let mut p = self.run_queues[pri].remove(0);
                proof {
                    assert(self.queues() =~= q0.update(pri as int, q0[pri as int].drop_first()));
                    assert(queued_wf(q0[pri as int][0], pri as int));
                    assert forall|q: int, i: int| 0 <= q < NUM_PRIORITIES && 0 <= i < self.queues()[q].len()
                        implies queued_wf(#[trigger] self.queues()[q][i], q) by {
                        if q == pri as int {
                            assert(self.queues()[q][i] == q0[q][i + 1]);
                        } else {
                            assert(self.queues()[q][i] == q0[q][i]);
                        }
                    }
                }
                p.state = ProcessState::Running;
                self.remaining_ticks = Self::quantum_for(p.effective_priority);
                let t = SwitchTarget {
                    pid: p.pid,
                    trapframe: p.trapframe,
                    kernel_stack: p.kernel_stack,
                    root: p.address_space.pml4_phys(),
                };
                self.running = Some(p);
                return Some(t);
            }
        }
        None
    }

    /// Moves the running process, as Zombie, to the wait queue. False when
    /// nothing was running.
    pub fn kill_current(&mut self) -> (r: bool)
        requires
            old(self).wf(),
        ensures
            final(self).wf(),
            r == old(self).current().is_some(),
            final(self).current().is_none(),
            final(self).queues() == old(self).queues(),
            r ==> final(self).waiting() == old(self).waiting().push(
                with_state(old(self).current().unwrap(), ProcessState::Zombie)),
            !r ==> final(self).waiting() == old(self).waiting(),
            final(self).remaining() == old(self).remaining(),
            final(self).ticks() == old(self).ticks(),
            final(self).pid_counter() == old(self).pid_counter(),
    {
        match self.running.take() {
            Some(p) => {
                let mut p = p;
                p.state = ProcessState::Zombie;
                let ghost w0 = self.waiting();
                self.wait_queue.push(p);
                proof {
                    assert forall|i: int| 0 <= i < self.waiting().len() implies process_wf(#[trigger] self.waiting()[i])
                        && (self.waiting()[i].state == ProcessState::Blocked || self.waiting()[i].state == ProcessState::Zombie) by {
                        if i < w0.len() {
                            assert(self.waiting()[i] == w0[i]);
                        }
                    }
                }
                true
            },
            None => false,
        }
    }

    /// Kills the running process and starts the next Ready one; returns the
    /// iret fields of the new process, for the faulting exception's frame.
    /// `None` when no process is Ready.
    pub fn kill_and_switch(&mut self) -> (r: Option<IretFrame>)
        requires
            old(self).wf(),
        ensures
            final(self).wf(),
            old(self).current().is_some() ==> final(self).waiting() == old(self).waiting().push(
                with_state(old(self).current().unwrap(), ProcessState::Zombie)),
            ({
                let h = highest_nonempty(old(self).queues(), 10);
                &&& h < 0 ==> r.is_none() && final(self).current().is_none()
                &&& h >= 0 ==> ({
                    let p = old(self).queues()[h][0];
                    &&& r == Some(IretFrame { rip: p.trapframe.rip, cs: p.trapframe.cs,
                        rflags: p.trapframe.rflags, rsp: p.trapframe.rsp, ss: p.trapframe.ss })
                    &&& final(self).current() == Some(with_state(p, ProcessState::Running))
                    &&& final(self).queues() == old(self).queues().update(h, old(self).queues()[h].drop_first())
                    &&& final(self).remaining() == quantum(p.effective_priority)
                })
            }),
    {
        self.kill_current();
        match self.pick_next() {
            Some(t) => Some(IretFrame::of(&t.trapframe)),
            None => None,
        }
    }

    /// One timer tick: counts it, ages the Ready processes every 50th tick,
    /// and spends one tick of the running slice. True when the slice is used up.
    pub fn tick(&mut self) -> (r: bool)
        requires
            old(self).wf(),
        ensures
            final(self).wf(),
            final(self).ticks() == (old(self).ticks() + 1) % 0x1_0000_0000,
            final(self).remaining() == remaining_after(old(self).remaining(), 1),
            r == (final(self).remaining() == 0),
            final(self).current() == old(self).current(),
            final(self).waiting() == old(self).waiting(),
            final(self).pid_counter() == old(self).pid_counter(),
            final(self).ticks() % (AGING_EPOCH as nat) == 0 ==> forall|q: int| 0 <= q < NUM_PRIORITIES
                ==> #[trigger] final(self).queues()[q] == aged_queue(old(self).queues(), q),
            final(self).ticks() % (AGING_EPOCH as nat) != 0 ==> final(self).queues() == old(self).queues(),
    {
        self.global_ticks = self.global_ticks.wrapping_add(1);
        if self.global_ticks % AGING_EPOCH == 0 {
            self.age_processes();
        }
        if self.remaining_ticks > 0 {
            self.remaining_ticks = self.remaining_ticks - 1;
        }
        self.remaining_ticks == 0
    }

    /// Raises by one the effective priority of every Ready process (idle
    /// excepted) that is below its base priority, moving it to the back of
    /// the next queue up.
    #[verifier::rlimit(40)]
    fn age_processes(&mut self)
        requires
            old(self).wf(),
        ensures
            final(self).wf(),
            forall|q: int| 0 <= q < NUM_PRIORITIES ==> #[trigger] final(self).queues()[q] == aged_queue(old(self).queues(), q),
            final(self).current() == old(self).current(),
            final(self).waiting() == old(self).waiting(),
            final(self).remaining() == old(self).remaining(),
            final(self).ticks() == old(self).ticks(),
            final(self).pid_counter() == old(self).pid_counter(),
    {
        let ghost old_q = self.queues();
        let mut fresh: Vec<Vec<Process>> = Vec::new();
        let mut i: usize = 0;
        while i < NUM_PRIORITIES
            invariant
                i <= NUM_PRIORITIES,
                fresh@.len() == i,
                forall|j: int| 0 <= j < i ==> (#[trigger] fresh@[j])@.len() == 0,
            decreases NUM_PRIORITIES - i,
        {
            fresh.push(Vec::new());
            i = i + 1;
        }
        let mut q: usize = NUM_PRIORITIES;
        while q > 0
            invariant
                q <= NUM_PRIORITIES,
                fresh@.len() == NUM_PRIORITIES,
                self.queues().len() == NUM_PRIORITIES,
                forall|k: int| 0 <= k < q ==> #[trigger] self.queues()[k] == old_q[k],
                forall|k: int| q <= k < NUM_PRIORITIES ==> #[trigger] self.queues()[k].len() == 0,
                old_q.len() == NUM_PRIORITIES,
                forall|a: int, b: int| 0 <= a < NUM_PRIORITIES && 0 <= b < old_q[a].len()
                    ==> queued_wf(#[trigger] old_q[a][b], a),
                forall|k: int| q < k < NUM_PRIORITIES ==> #[trigger] fresh@[k]@ == aged_queue(old_q, k),
                q < NUM_PRIORITIES ==> fresh@[q as int]@ == old_q[q as int].filter(|p: Process| !boosted(p)),
                forall|k: int| 0 <= k < q ==> #[trigger] fresh@[k]@.len() == 0,
                self.current() == old(self).current(),
                self.waiting() == old(self).waiting(),
                self.remaining() == old(self).remaining(),
                self.ticks() == old(self).ticks(),
                self.pid_counter() == old(self).pid_counter(),
            decreases q,
        {
            q = q - 1;
            let ghost src = old_q[q as int];
            proof {
                assert(self.queues()[q as int] == self.run_queues@[q as int]@);
            }
            let ghost mut k: int = 0;
            while self.run_queues[q].len() > 0
                invariant
                    q < NUM_PRIORITIES,
                    fresh@.len() == NUM_PRIORITIES,
                    self.queues().len() == NUM_PRIORITIES,
                    src == old_q[q as int],
                    0 <= k <= src.len(),
                    self.queues()[q as int] == src.subrange(k as int, src.len() as int),
                    forall|j: int| 0 <= j < NUM_PRIORITIES && j != q ==> #[trigger] self.queues()[j] == (if j < q { old_q[j] } else { Seq::empty() }),
                    forall|a: int, b: int| 0 <= a < NUM_PRIORITIES && 0 <= b < old_q[a].len()
                        ==> queued_wf(#[trigger] old_q[a][b], a),
                    forall|j: int| q + 1 < j < NUM_PRIORITIES ==> #[trigger] fresh@[j]@ == aged_queue(old_q, j),
                    fresh@[q as int]@ == src.subrange(0, k as int).filter(|p: Process| !boosted(p)),
                    q + 1 < NUM_PRIORITIES ==> fresh@[q + 1]@ == old_q[q + 1].filter(|p: Process| !boosted(p))
                        + src.subrange(0, k as int).filter(|p: Process| boosted(p)).map_values(|p: Process| aged(p)),
                    forall|j: int| 0 <= j < q ==> #[trigger] fresh@[j]@.len() == 0,
                    self.current() == old(self).current(),
                    self.waiting() == old(self).waiting(),
                    self.remaining() == old(self).remaining(),
                    self.ticks() == old(self).ticks(),
                    self.pid_counter() == old(self).pid_counter(),
                decreases src.len() - k,
            {
                let ghost before = self.queues();
                proof {
                    assert(self.queues()[q as int] == self.run_queues@[q as int]@);
                    assert(k < src.len());
                }
                let mut p = self.run_queues[q].remove(0);
                proof {
                    assert(p == src[k as int]);
                    assert(self.queues() =~~= before.update(q as int, src.subrange(k + 1, src.len() as int)));
                    assert(queued_wf(src[k as int], q as int));
                    let s0 = src.subrange(0, k as int);
                    assert(src.subrange(0, k + 1) =~= s0.push(p));
                    s0.lemma_filter_push(p, |p: Process| !boosted(p));
                    s0.lemma_filter_push(p, |p: Process| boosted(p));
                }
                if p.pid.0 != 0 && p.effective_priority < p.priority {
                    proof {
                        assert(q + 1 < NUM_PRIORITIES);
                    }
                    p.effective_priority = p.effective_priority + 1;
                    let ghost f0 = fresh@[q + 1]@;
                    fresh[q + 1].push(p);
                    proof {
                        let s0 = src.subrange(0, k as int);
                        let t = s0.filter(|p: Process| boosted(p));
                        assert(t.push(src[k as int]).map_values(|p: Process| aged(p))
                            =~= t.map_values(|p: Process| aged(p)).push(aged(src[k as int])));
                        assert(fresh@[q + 1]@ =~= f0.push(p));
                    }
                } else {
                    fresh[q].push(p);
                }
                proof {
                    k = k + 1;
                }
            }
            proof {
                assert(self.queues()[q as int].len() == 0);
                assert(src.subrange(0, k as int) =~= src);
                if q + 1 < NUM_PRIORITIES {
                    assert(fresh@[q + 1]@ == aged_queue(old_q, q + 1));
                }
            }
        }
        self.run_queues = fresh;
        proof {
            assert forall|k: int| 0 <= k < NUM_PRIORITIES implies #[trigger] self.queues()[k] == aged_queue(old_q, k) by {
                assert(self.queues()[k] == fresh@[k]@);
                if k == 0 {
                    assert(aged_queue(old_q, 0) =~= old_q[0].filter(|p: Process| !boosted(p)));
                }
            }
            assert forall|q: int, i: int| 0 <= q < NUM_PRIORITIES && 0 <= i < self.queues()[q].len()
                implies queued_wf(#[trigger] self.queues()[q][i], q) by {
                lemma_aged_queue_wf(old_q, q, i);
            }
        }
    }

    /// Writes `buf` to descriptor `fd` of the running process; `None` when
    /// nothing runs.
    pub fn file_write(&mut self, fd: usize, buf: &Vec<u8>) -> (r: Option<Result<usize, FileError>>)
        requires
            old(self).wf(),
        ensures
            final(self).wf(),
            final(self).queues() == old(self).queues(),
            final(self).waiting() == old(self).waiting(),
            final(self).remaining() == old(self).remaining(),
            final(self).current().is_some() == old(self).current().is_some(),
            old(self).current().is_none() ==> r.is_none(),
            old(self).current().is_some() ==> ({
                let p = old(self).current().unwrap();
                let p2 = final(self).current().unwrap();
                &&& r.is_some()
                &&& p2.pid == p.pid
                &&& !p.files.is_open(fd as int) ==> r.unwrap() == Err::<usize, FileError>(FileError::BadFileDescriptor)
                &&& p.files.is_open(fd as int) ==> r.unwrap() == Ok::<usize, FileError>(buf@.len() as usize)
                    && p2.files.is_open(fd as int)
                    && kind_of(p2.files.slots()[fd as int].unwrap()) == kind_of(p.files.slots()[fd as int].unwrap())
                    && ((kind_of(p.files.slots()[fd as int].unwrap()) == DeviceKind::Console
                        || kind_of(p.files.slots()[fd as int].unwrap()) == DeviceKind::Fb)
                        ==> output_of(p2.files.slots()[fd as int].unwrap())
                            == output_of(p.files.slots()[fd as int].unwrap()) + buf@)
            }),
    {
        match self.running.take() {
            None => None,
            Some(p) => {
                let mut p = p;
                let r = p.files.write(fd, buf);
                self.running = Some(p);
                Some(r)
            },
        }
    }

    /// Reads from descriptor `fd` of the running process into `buf`; `None`
    /// when nothing runs.
    pub fn file_read(&mut self, fd: usize, buf: &mut Vec<u8>) -> (r: Option<Result<usize, FileError>>)
        requires
            old(self).wf(),
        ensures
            final(self).wf(),
            final(self).queues() == old(self).queues(),
            final(self).waiting() == old(self).waiting(),
            final(self).remaining() == old(self).remaining(),
            final(self).current().is_some() == old(self).current().is_some(),
            final(buf)@.len() == old(buf)@.len(),
            old(self).current().is_none() ==> r.is_none(),
            old(self).current().is_some() ==> ({
                let p = old(self).current().unwrap();
                &&& r.is_some()
                &&& final(self).current().unwrap().pid == p.pid
                &&& !p.files.is_open(fd as int) ==> r.unwrap() == Err::<usize, FileError>(FileError::BadFileDescriptor)
                &&& p.files.is_open(fd as int) ==> ({
                    let k = kind_of(p.files.slots()[fd as int].unwrap());
                    &&& k == DeviceKind::Null ==> r.unwrap() == Ok::<usize, FileError>(0)
                    &&& k == DeviceKind::Zero ==> r.unwrap() == Ok::<usize, FileError>(old(buf)@.len() as usize)
                        && forall|i: int| 0 <= i < final(buf)@.len() ==> final(buf)@[i] == 0
                    &&& (k == DeviceKind::Console || k == DeviceKind::Fb)
                        ==> r.unwrap() == Err::<usize, FileError>(FileError::NotSupported)
                })
            }),
    {
        match self.running.take() {
            None => None,
            Some(p) => {
                let mut p = p;
                let r = p.files.read(fd, buf);
                self.running = Some(p);
                Some(r)
            },
        }
    }

    /// Installs `dev` at the lowest free descriptor of the running process.
    pub fn file_open(&mut self, dev: Device) -> (r: Option<Result<usize, FileError>>)
        requires
            old(self).wf(),
        ensures
            final(self).wf(),
            final(self).queues() == old(self).queues(),
            final(self).waiting() == old(self).waiting(),
            final(self).remaining() == old(self).remaining(),
            final(self).current().is_some() == old(self).current().is_some(),
            old(self).current().is_none() ==> r.is_none(),
            old(self).current().is_some() ==> ({
                let p = old(self).current().unwrap();
                let p2 = final(self).current().unwrap();
                &&& r.is_some()
                &&& p2.pid == p.pid
                &&& r.unwrap().is_err() <==> forall|i: int| 0 <= i < 16 ==> p.files.is_open(i)
                &&& r.unwrap().is_err() ==> r.unwrap() == Err::<usize, FileError>(FileError::InvalidArgument)
                &&& r.unwrap().is_ok() ==> r.unwrap().unwrap() < 16 && !p.files.is_open(r.unwrap().unwrap() as int)
                    && (forall|i: int| 0 <= i < r.unwrap().unwrap() ==> p.files.is_open(i))
                    && p2.files.slots() == p.files.slots().update(r.unwrap().unwrap() as int, Some(dev))
            }),
    {
        match self.running.take() {
            None => None,
            Some(p) => {
                let mut p = p;
                let r = p.files.allocate(dev);
                self.running = Some(p);
                Some(r)
            },
        }
    }

    /// Closes descriptor `fd` of the running process.
    pub fn file_close(&mut self, fd: usize) -> (r: Option<Result<(), FileError>>)
        requires
            old(self).wf(),
        ensures
            final(self).wf(),
            final(self).queues() == old(self).queues(),
            final(self).waiting() == old(self).waiting(),
            final(self).remaining() == old(self).remaining(),
            final(self).current().is_some() == old(self).current().is_some(),
            old(self).current().is_none() ==> r.is_none(),
            old(self).current().is_some() ==> ({
                let p = old(self).current().unwrap();
                let p2 = final(self).current().unwrap();
                &&& r.is_some()
                &&& p2.pid == p.pid
                &&& r.unwrap().is_ok() <==> p.files.is_open(fd as int)
                &&& r.unwrap().is_err() ==> r.unwrap() == Err::<(), FileError>(FileError::BadFileDescriptor)
                &&& r.unwrap().is_ok() ==> p2.files.slots() == p.files.slots().update(fd as int, None)
            }),
    {
        match self.running.take() {
            None => None,
            Some(p) => {
                let mut p = p;
                let r = p.files.close(fd);
                self.running = Some(p);
                Some(r)
            },
        }
    }

    /// Takes the output queued by descriptor `fd` of the running process.
    pub fn take_output(&mut self, fd: usize) -> (r: Vec<u8>)
        requires
            old(self).wf(),
        ensures
            final(self).wf(),
            final(self).queues() == old(self).queues(),
            final(self).waiting() == old(self).waiting(),
            final(self).remaining() == old(self).remaining(),
            final(self).current().is_some() == old(self).current().is_some(),
            old(self).current().is_some() && old(self).current().unwrap().files.is_open(fd as int)
                ==> r@ == output_of(old(self).current().unwrap().files.slots()[fd as int].unwrap()),
    {
        match self.running.take() {
            None => Vec::new(),
            Some(p) => {
                let mut p = p;
                let r = p.files.take_output(fd);
                self.running = Some(p);
                r
            },
        }
    }

    /// The running process ends: it waits as a Zombie, and its slice is
    /// used up so that the next tick switches.
    pub fn exit_current(&mut self) -> (r: bool)
        requires
            old(self).wf(),
        ensures
            final(self).wf(),
            r == old(self).current().is_some(),
            final(self).current().is_none(),
            final(self).queues() == old(self).queues(),
            r ==> final(self).waiting() == old(self).waiting().push(
                with_state(old(self).current().unwrap(), ProcessState::Zombie)),
            final(self).remaining() == 0,
    {
        let r = self.kill_current();
        self.remaining_ticks = 0;
        r
    }

    /// Resolves a demand-paging fault of the running process at
    /// `fault_addr` in its area `vma`; `None` when nothing runs.
    pub fn map_current_demand_page(&mut self, fault_addr: u64, vma: &Vma, buddy: &mut BuddyAllocator)
        -> (r: Option<Result<DemandMapping, FaultReason>>)
        requires
            old(self).wf(),
            old(buddy).wf(),
        ensures
            final(self).wf(),
            final(buddy).wf(),
            final(self).queues() == old(self).queues(),
            final(self).waiting() == old(self).waiting(),
            final(self).remaining() == old(self).remaining(),
            final(self).current().is_some() == old(self).current().is_some(),
            old(self).current().is_none() ==> r.is_none(),
            old(self).current().is_some() ==> ({
                let p = old(self).current().unwrap();
                let p2 = final(self).current().unwrap();
                let page = (fault_addr - fault_addr % 4096) as u64;
                &&& r.is_some() && p2.pid == p.pid
                &&& r.unwrap().is_ok() ==> r.unwrap().unwrap().page == page
                    && p2.address_space.mappings() == p.address_space.mappings().push((page, r.unwrap().unwrap().frame))
                &&& vma.kind == crate::memory::vma::VmaKind::Anonymous && p.address_space.vma_list().has(*vma)
                    && vma_contains(*vma, page as int) && !p.address_space.is_mapped(page)
                    && old(buddy).free_from(MIN_ORDER as nat) > 0 ==> r.unwrap().is_ok()
                &&& r.unwrap().is_ok() ==> took_frame(*old(buddy), *final(buddy), r.unwrap().unwrap().frame)
            }),
    {
        match self.running.take() {
            None => None,
            Some(p) => {
                let mut p = p;
                let r = map_demand_page(fault_addr, vma, &mut p.address_space, buddy);
                self.running = Some(p);
                Some(r)
            },
        }
    }

    /// (process id, descriptor, device name) for the open descriptors of
    /// every process: the running one, the run queues from priority 0 up,
    /// then the wait queue.
    pub fn open_files(&self) -> (r: Vec<(usize, usize, &'static str)>)
        requires
            self.wf(),
    {
        let mut r: Vec<(usize, usize, &'static str)> = Vec::new();
        match &self.running {
            Some(p) => append_files(&mut r, p),
            None => {},
        }
        let mut q: usize = 0;
        while q < NUM_PRIORITIES
            invariant
                q <= NUM_PRIORITIES,
                self.wf(),
            decreases NUM_PRIORITIES - q,
        {
            let queue = &self.run_queues[q];
            proof {
                assert(self.queues()[q as int] == queue@);
            }
            let mut i: usize = 0;
            while i < queue.len()
                invariant
                    q < NUM_PRIORITIES,
                    self.wf(),
                    self.queues()[q as int] == queue@,
                decreases queue@.len() - i,
            {
                proof {
                    assert(queued_wf(self.queues()[q as int][i as int], q as int));
                }
                append_files(&mut r, &queue[i]);
                i = i + 1;
            }
            q = q + 1;
        }
        let mut i: usize = 0;
        while i < self.wait_queue.len()
            invariant
                self.wf(),
            decreases self.waiting().len() - i,
        {
            proof {
                assert(process_wf(self.waiting()[i as int]));
            }
            append_files(&mut r, &self.wait_queue[i]);
            i = i + 1;
        }
        r
    }

    /// Context switch: saves `current_tf` into the running process and puts
    /// it back in its run queue, Ready and one priority lower (never below
    /// 1; idle keeps 0); then runs the head of the highest non-empty queue.
    /// `None` when nothing is Ready (the caller resumes `current_tf`).
    #[verifier::rlimit(40)]
    pub fn switch_to_next(&mut self, current_tf: TrapFrame) -> (r: Option<SwitchTarget>)
        requires
            old(self).wf(),
        ensures
            final(self).wf(),
            final(self).waiting() == old(self).waiting(),
            final(self).ticks() == old(self).ticks(),
            ({
                let q1 = requeued(old(self).queues(), old(self).current(), current_tf);
                let h = highest_nonempty(q1, 10);
                &&& h < 0 ==> r.is_none() && final(self).current().is_none()
                &&& h >= 0 ==> ({
                    let p = q1[h][0];
                    &&& r == Some(target_of(p))
                    &&& final(self).current() == Some(with_state(p, ProcessState::Running))
                    &&& final(self).queues() == q1.update(h, q1[h].drop_first())
                    &&& final(self).remaining() == quantum(p.effective_priority)
                })
            }),
    {
        match self.running.take() {
            Some(p) => {
                let mut p = p;
                p.trapframe = current_tf;
                p.state = ProcessState::Ready;
                if p.pid.0 != 0 && p.effective_priority > MIN_EFFECTIVE_PRIORITY {
                    p.effective_priority = p.effective_priority - 1;
                }
                let e = p.effective_priority as usize;
                let ghost q0 = self.queues();
                self.run_queues[e].push(p);
                proof {
                    assert(self.queues() =~= q0.update(e as int, q0[e as int].push(p)));
                    assert forall|q: int, i: int| 0 <= q < NUM_PRIORITIES && 0 <= i < self.queues()[q].len()
                        implies queued_wf(#[trigger] self.queues()[q][i], q) by {
                        if q == e as int && i == q0[q].len() {
                        } else {
                            assert(self.queues()[q][i] == q0[q][i]);
                        }
                    }
                }
            },
            None => {},
        }
        self.pick_next()
    }

    /// Boot: runs the first non-idle process found scanning the run queues
    /// from priority 10 down to 1, front to back. `None` when there is none.
    #[verifier::rlimit(40)]
    pub fn start_first(&mut self) -> (r: Option<SwitchTarget>)
        requires
            old(self).wf(),
            old(self).current().is_none(),
        ensures
            final(self).wf(),
            final(self).waiting() == old(self).waiting(),
            r.is_none() <==> forall|q: int, i: int| 1 <= q < NUM_PRIORITIES && 0 <= i < old(self).queues()[q].len()
                ==> (#[trigger] old(self).queues()[q][i]).pid.0 == 0,
            r.is_some() ==> exists|q: int, i: int| 1 <= q < NUM_PRIORITIES && 0 <= i < old(self).queues()[q].len()
                && (#[trigger] old(self).queues()[q][i]).pid.0 != 0
                && r == Some(target_of(old(self).queues()[q][i]))
                && final(self).current() == Some(with_state(old(self).queues()[q][i], ProcessState::Running))
                && final(self).queues() == old(self).queues().update(q, old(self).queues()[q].remove(i))
                && final(self).remaining() == quantum(old(self).queues()[q][i].effective_priority)
                && (forall|q2: int, j: int| q < q2 < NUM_PRIORITIES && 0 <= j < old(self).queues()[q2].len()
                    ==> (#[trigger] old(self).queues()[q2][j]).pid.0 == 0)
                && (forall|j: int| 0 <= j < i ==> (#[trigger] old(self).queues()[q][j]).pid.0 == 0),
            r.is_none() ==> final(self).queues() == old(self).queues() && final(self).current().is_none(),
    {
        let mut pri: usize = NUM_PRIORITIES;
        while pri > 1
            invariant
                1 <= pri <= NUM_PRIORITIES,
                self.wf(),
                self.current().is_none(),
                self.queues() == old(self).queues(),
                self.waiting() == old(self).waiting(),
                forall|q2: int, j: int| pri <= q2 < NUM_PRIORITIES && 0 <= j < old(self).queues()[q2].len()
                    ==> (#[trigger] old(self).queues()[q2][j]).pid.0 == 0,
            decreases pri,
        {
            pri = pri - 1;
            proof {
                assert(self.queues()[pri as int] == self.run_queues@[pri as int]@);
            }
            let mut i: usize = 0;
            while i < self.run_queues[pri].len()
                invariant
                    1 <= pri < NUM_PRIORITIES,
                    self.wf(),
                    self.current().is_none(),
                    self.queues() == old(self).queues(),
                    self.waiting() == old(self).waiting(),
                    self.queues()[pri as int] == self.run_queues@[pri as int]@,
                    i <= self.queues()[pri as int].len(),
                    forall|j: int| 0 <= j < i ==> (#[trigger] old(self).queues()[pri as int][j]).pid.0 == 0,
                    forall|q2: int, j: int| pri < q2 < NUM_PRIORITIES && 0 <= j < old(self).queues()[q2].len()
                        ==> (#[trigger] old(self).queues()[q2][j]).pid.0 == 0,
                decreases self.queues()[pri as int].len() - i,
            {
                if self.run_queues[pri][i].pid.0 != 0 {
                    let ghost q0 = self.queues();
                    let mut p = self.run_queues[pri].remove(i);
                    proof {
                        assert(self.queues() =~~= q0.update(pri as int, q0[pri as int].remove(i as int)));
                        assert forall|q: int, k: int| 0 <= q < NUM_PRIORITIES && 0 <= k < self.queues()[q].len()
                            implies queued_wf(#[trigger] self.queues()[q][k], q) by {
                            if q == pri as int {
                                if k < i {
                                    assert(self.queues()[q][k] == q0[q][k]);
                                } else {
                                    assert(self.queues()[q][k] == q0[q][k + 1]);
                                }
                            } else {
                                assert(self.queues()[q][k] == q0[q][k]);
                            }
                        }
                        assert(queued_wf(q0[pri as int][i as int], pri as int));
                    }
                    p.state = ProcessState::Running;
                    self.remaining_ticks = Self::quantum_for(p.effective_priority);
                    let t = SwitchTarget {
                        pid: p.pid,
                        trapframe: p.trapframe,
                        kernel_stack: p.kernel_stack,
                        root: p.address_space.pml4_phys(),
                    };
                    self.running = Some(p);
                    proof {
                        assert(old(self).queues()[pri as int][i as int].pid.0 != 0);
                    }
                    return Some(t);
                }
                i = i + 1;
            }
        }
        None
    }
}

/// The run queues after the running process `cur` (if any) is put back by
/// a context switch with registers `tf`.
pub open spec fn requeued(queues: Seq<Seq<Process>>, cur: Option<Process>, tf: TrapFrame) -> Seq<Seq<Process>> {
    match cur {
        None => queues,
        Some(p) => {
            let d = decayed(p, tf);
            queues.update(d.effective_priority as int, queues[d.effective_priority as int].push(d))
        },
    }
}

/// The id of the running process of `sched`.
pub fn current_pid(sched: &Scheduler) -> (r: Option<usize>)
    ensures
        r.is_some() <==> sched.current().is_some(),
        r.is_some() ==> r.unwrap() == sched.current().unwrap().pid.0,
{
    match sched.current_pid() {
        Some(p) => Some(p.0),
        None => None,
    }
}

/// The running process's id and its area that contains `addr`; `None`
/// when nothing runs or no area contains `addr`.
pub fn find_current_vma(sched: &Scheduler, addr: u64) -> (r: Option<(usize, Vma)>)
    requires
        sched.wf(),
    ensures
        sched.current().is_none() ==> r.is_none(),
        r.is_some() ==> r.unwrap().0 == sched.current().unwrap().pid.0
            && sched.current().unwrap().address_space.vma_list().has(r.unwrap().1)
            && vma_contains(r.unwrap().1, addr as int),
        sched.current().is_some() && r.is_none() ==> forall|v: Vma|
            sched.current().unwrap().address_space.vma_list().has(v) ==> !vma_contains(v, addr as int),
{
    let p = sched.running_ref()?;
    let v = p.address_space.find_vma(addr)?;
    Some((p.pid.0, v))
}

proof fn lemma_highest_at_least(queues: Seq<Seq<Process>>, q: int, a: int)
    requires
        0 <= a <= q,
        0 <= a < queues.len(),
        queues[a].len() > 0,
    ensures
        highest_nonempty(queues, q) >= a,
    decreases q + 1,
{
    if q > a && queues[q].len() == 0 {
        lemma_highest_at_least(queues, q - 1, a);
    }
}

/// Priority order: while a Ready process A waits in a run queue with a
/// higher effective priority than a Ready process B, the next process to run
/// comes from a queue at least as high as A's, so it is not B.
pub proof fn lemma_priority_order(queues: Seq<Seq<Process>>, qa: int, ia: int, qb: int, ib: int)
    requires
        queues.len() == NUM_PRIORITIES,
        forall|q: int, i: int| 0 <= q < NUM_PRIORITIES && 0 <= i < queues[q].len()
            ==> queued_wf(#[trigger] queues[q][i], q),
        0 <= qa < NUM_PRIORITIES && 0 <= ia < queues[qa].len(),
        0 <= qb < NUM_PRIORITIES && 0 <= ib < queues[qb].len(),
        queues[qa][ia].effective_priority > queues[qb][ib].effective_priority,
    ensures
        highest_nonempty(queues, 10) >= qa,
        highest_nonempty(queues, 10) != qb,
{
    assert(queued_wf(queues[qa][ia], qa));
    assert(queued_wf(queues[qb][ib], qb));
    lemma_highest_at_least(queues, 10, qa);
}

/// Aging: every aging step moves each Ready process that is below its base
/// priority (idle excepted) up one queue, with its effective priority raised
/// by one; a process waiting at priority q < base is back at its base after
/// base - q steps unless it runs first.
pub proof fn lemma_aging_raises(queues: Seq<Seq<Process>>, q: int, i: int)
    requires
        queues.len() == NUM_PRIORITIES,
        forall|a: int, b: int| 0 <= a < NUM_PRIORITIES && 0 <= b < queues[a].len()
            ==> queued_wf(#[trigger] queues[a][b], a),
        0 <= q < NUM_PRIORITIES,
        0 <= i < queues[q].len(),
        boosted(queues[q][i]),
    ensures
        q + 1 < NUM_PRIORITIES,
        aged_queue(queues, q + 1).contains(aged(queues[q][i])),
        aged(queues[q][i]).effective_priority == queues[q][i].effective_priority + 1,
        aged(queues[q][i]).effective_priority <= aged(queues[q][i]).priority,
{
    let x = queues[q][i];
    assert(queued_wf(x, q));
    let up = queues[q].filter(|p: Process| boosted(p));
    #[allow(deprecated)]
    queues[q].filter_lemma(|p: Process| boosted(p));
    assert(up.contains(x));
    let k = choose|k: int| 0 <= k < up.len() && up[k] == x;
    let stay = queues[q + 1].filter(|p: Process| !boosted(p));
    let m = up.map_values(|p: Process| aged(p));
    assert(aged_queue(queues, q + 1) == stay + m);
    assert((stay + m)[stay.len() + k] == aged(x));
}

/// Quantum exhaustion: a process given `quantum(e)` ticks sees its slice end
/// (the tick that returns true) exactly at the `quantum(e)`-th tick.
pub proof fn lemma_quantum_exhaustion(e: u8, n: nat)
    ensures
        remaining_after(quantum(e) as nat, n) == 0 <==> n >= quantum(e),
        remaining_after(remaining_after(quantum(e) as nat, n), 1) == remaining_after(quantum(e) as nat, n + 1),
{
}

/// Kill then switch: after `kill_and_switch`, the killed process waits as a
/// Zombie and the new running process is the one that headed the highest
/// non-empty run queue, a process that was Ready.
pub proof fn lemma_kill_then_switch(before: Scheduler, after: Scheduler)
    requires
        before.wf(),
        before.current().is_some(),
        highest_nonempty(before.queues(), 10) >= 0,
        after.waiting() == before.waiting().push(with_state(before.current().unwrap(), ProcessState::Zombie)),
        after.current() == Some(with_state(before.queues()[highest_nonempty(before.queues(), 10)][0], ProcessState::Running)),
    ensures
        after.waiting().last().state == ProcessState::Zombie,
        after.waiting().last().pid == before.current().unwrap().pid,
        before.queues()[highest_nonempty(before.queues(), 10)][0].state == ProcessState::Ready,
        after.current().unwrap().pid == before.queues()[highest_nonempty(before.queues(), 10)][0].pid,
{
    let h = highest_nonempty(before.queues(), 10);
    lemma_highest_in_range(before.queues(), 10);
    assert(queued_wf(before.queues()[h][0], h));
}

proof fn lemma_highest_in_range(queues: Seq<Seq<Process>>, q: int)
    requires
        -1 <= q < queues.len(),
    ensures
        -1 <= highest_nonempty(queues, q) <= q,
        highest_nonempty(queues, q) >= 0 ==> queues[highest_nonempty(queues, q)].len() > 0,
    decreases q + 1,
{
    if q >= 0 && queues[q].len() == 0 {
        lemma_highest_in_range(queues, q - 1);
    }
}

fn append_files(out: &mut Vec<(usize, usize, &'static str)>, p: &Process)
    requires
        process_wf(*p),
{
    let list = p.files.debug_list();
    let mut i: usize = 0;
    while i < list.len()
        decreases list@.len() - i,
    {
        let (fd, name) = list[i];
        out.push((p.pid.0, fd, name));
        i = i + 1;
    }
}

/// How many processes the run queues below `q` hold.
pub open spec fn queue_total(queues: Seq<Seq<Process>>, q: int) -> int
    decreases q,
{
    if q <= 0 { 0 } else { queue_total(queues, q - 1) + queues[q - 1].len() }
}

proof fn lemma_aged_queue_wf(queues: Seq<Seq<Process>>, q: int, i: int)
    requires
        queues.len() == NUM_PRIORITIES,
        forall|a: int, b: int| 0 <= a < NUM_PRIORITIES && 0 <= b < queues[a].len()
            ==> queued_wf(#[trigger] queues[a][b], a),
        0 <= q < NUM_PRIORITIES,
        0 <= i < aged_queue(queues, q).len(),
    ensures
        queued_wf(aged_queue(queues, q)[i], q),
{
    let stay = queues[q].filter(|p: Process| !boosted(p));
    if i < stay.len() {
        queues[q].lemma_filter_contains_rev(|p: Process| !boosted(p), stay[i]);
        assert(stay.contains(stay[i]));
        assert(queues[q].contains(stay[i]));
    } else {
        assert(q > 0);
        let up = queues[q - 1].filter(|p: Process| boosted(p));
        let x = up[i - stay.len()];
        assert(up.contains(x));
        queues[q - 1].lemma_filter_contains_rev(|p: Process| boosted(p), x);
        assert(aged_queue(queues, q)[i] == aged(x));
    }
}

} // verus!
