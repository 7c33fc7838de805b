use vstd::prelude::*;

verus! {

/// First address above user space.
pub const USER_SPACE_END: u64 = 0x0000_8000_0000_0000;
/// RFLAGS interrupt-enable bit.
pub const RFLAGS_IF: u64 = 0x200;
pub const KERNEL_CS: u64 = 0x08;
pub const KERNEL_SS: u64 = 0x10;
pub const USER_CS: u64 = 0x23;
pub const USER_SS: u64 = 0x1b;

/// The register snapshot that `iretq` consumes: the general registers the
/// trampoline pushes, then the hardware frame (rip, cs, rflags, rsp, ss).
#[derive(Clone, Copy, Debug, PartialEq, Eq, Structural)]
pub struct TrapFrame {
    pub rax: u64,
    pub rbx: u64,
    pub rcx: u64,
    pub rdx: u64,
    pub rsi: u64,
    pub rdi: u64,
    pub rbp: u64,
    pub r8: u64,
    pub r9: u64,
    pub r10: u64,
    pub r11: u64,
    pub r12: u64,
    pub r13: u64,
    pub r14: u64,
    pub r15: u64,
    pub rip: u64,
    pub cs: u64,
    pub rflags: u64,
    pub rsp: u64,
    pub ss: u64,
}

pub open spec fn general_zero(t: TrapFrame) -> bool {
    t.rax == 0 && t.rbx == 0 && t.rcx == 0 && t.rdx == 0 && t.rsi == 0 && t.rdi == 0 && t.rbp == 0
    && t.r8 == 0 && t.r9 == 0 && t.r10 == 0 && t.r11 == 0 && t.r12 == 0 && t.r13 == 0 && t.r14 == 0
    && t.r15 == 0
}

/// A problem that would make `iretq` to user mode fail, or a doubtful value.
#[derive(Clone, Copy, Debug, PartialEq, Eq, Structural)]
pub enum TrapFrameIssue {
    /// CS does not request ring 3 (error).
    CsNotRing3,
    /// SS does not request ring 3 (error).
    SsNotRing3,
    /// Interrupts would stay disabled (warning).
    InterruptsDisabled,
    /// RIP lies in kernel space (error).
    RipInKernelSpace,
    /// RSP lies in kernel space (error).
    RspInKernelSpace,
    /// RSP is not 8-byte aligned (warning).
    RspMisaligned,
}

impl TrapFrame {
    /// A frame with every register zero.
    pub fn zeroed() -> (r: Self)
        ensures
            general_zero(r),
            r.rip == 0 && r.cs == 0 && r.rflags == 0 && r.rsp == 0 && r.ss == 0,
    {
        TrapFrame {
            rax: 0, rbx: 0, rcx: 0, rdx: 0, rsi: 0, rdi: 0, rbp: 0, r8: 0, r9: 0, r10: 0,
            r11: 0, r12: 0, r13: 0, r14: 0, r15: 0, rip: 0, cs: 0, rflags: 0, rsp: 0, ss: 0,
        }
    }

    /// The frame of a user process that never ran: general registers zero,
    /// selectors with RPL 3, interrupts enabled.
    pub fn new_user(entry_point: u64, user_stack: u64, user_cs: u64, user_ss: u64) -> (r: Self)
        ensures
            general_zero(r),
            r.rip == entry_point,
            r.cs == user_cs | 3,
            r.rflags == 0x202,
            r.rsp == user_stack,
            r.ss == user_ss | 3,
    {
        let mut t = Self::zeroed();
        t.rip = entry_point;
        t.cs = user_cs | 3;
        t.rflags = 0x202;
        t.rsp = user_stack;
        t.ss = user_ss | 3;
        t
    }

    /// The frame of a kernel process that never ran: it starts at `entry` on
    /// the kernel stack whose top is `kernel_stack`.
    pub fn new_kernel(entry: u64, kernel_stack: u64) -> (r: Self)
        requires
            kernel_stack >= 8,
        ensures
            general_zero(r),
            r.rip == entry,
            r.cs == KERNEL_CS,
            r.rflags == RFLAGS_IF,
            r.rsp == kernel_stack - 8,
            r.ss == KERNEL_SS,
    {
        let mut t = Self::zeroed();
        t.rip = entry;
        t.cs = KERNEL_CS;
        t.rflags = RFLAGS_IF;
        t.rsp = kernel_stack - 8;
        t.ss = KERNEL_SS;
        t
    }

    /// The frame of a user process started by the scheduler at `entry` with
    /// stack pointer `user_stack`.
    pub fn new_user_process(entry: u64, user_stack: u64) -> (r: Self)
        ensures
            general_zero(r),
            r.rip == entry,
            r.cs == USER_CS,
            r.rflags == RFLAGS_IF,
            r.rsp == user_stack,
            r.ss == USER_SS,
    {
        let mut t = Self::zeroed();
        t.rip = entry;
        t.cs = USER_CS;
        t.rflags = RFLAGS_IF;
        t.rsp = user_stack;
        t.ss = USER_SS;
        t
    }

    /// Checks the frame before `iretq` to user mode; returns the problems
    /// found, errors and warnings, in a fixed order.
    pub fn debug_print(&self) -> (r: Vec<TrapFrameIssue>)
        ensures
            r@.contains(TrapFrameIssue::CsNotRing3) <==> self.cs & 3 != 3,
            r@.contains(TrapFrameIssue::SsNotRing3) <==> self.ss & 3 != 3,
            r@.contains(TrapFrameIssue::InterruptsDisabled) <==> self.rflags & 0x200 == 0,
            r@.contains(TrapFrameIssue::RipInKernelSpace) <==> self.rip >= USER_SPACE_END,
            r@.contains(TrapFrameIssue::RspInKernelSpace) <==> self.rsp >= USER_SPACE_END,
            r@.contains(TrapFrameIssue::RspMisaligned) <==> self.rsp % 8 != 0,
    {
        let mut r: Vec<TrapFrameIssue> = Vec::new();
        if self.cs & 3 != 3 {
            r.push(TrapFrameIssue::CsNotRing3);
        }
        let ghost r1 = r@;
        if self.ss & 3 != 3 {
            r.push(TrapFrameIssue::SsNotRing3);
        }
        let ghost r2 = r@;
        if self.rflags & 0x200 == 0 {
            r.push(TrapFrameIssue::InterruptsDisabled);
        }
        let ghost r3 = r@;
        if self.rip >= USER_SPACE_END {
            r.push(TrapFrameIssue::RipInKernelSpace);
        }
        let ghost r4 = r@;
        if self.rsp >= USER_SPACE_END {
            r.push(TrapFrameIssue::RspInKernelSpace);
        }
        let ghost r5 = r@;
        if self.rsp % 8 != 0 {
            r.push(TrapFrameIssue::RspMisaligned);
        }
        proof {
            lemma_contains_push_opt(r1, r2, TrapFrameIssue::SsNotRing3, self.ss & 3 != 3);
            lemma_contains_push_opt(r2, r3, TrapFrameIssue::InterruptsDisabled, self.rflags & 0x200 == 0);
            lemma_contains_push_opt(r3, r4, TrapFrameIssue::RipInKernelSpace, self.rip >= USER_SPACE_END);
            lemma_contains_push_opt(r4, r5, TrapFrameIssue::RspInKernelSpace, self.rsp >= USER_SPACE_END);
            lemma_contains_push_opt(r5, r@, TrapFrameIssue::RspMisaligned, self.rsp % 8 != 0);
            if self.cs & 3 != 3 {
                assert(r1[0] == TrapFrameIssue::CsNotRing3);
            } else {
                assert(r1.len() == 0);
            }
        }
        r
    }
}

proof fn lemma_contains_push_opt(a: Seq<TrapFrameIssue>, b: Seq<TrapFrameIssue>, x: TrapFrameIssue, pushed: bool)
    requires
        pushed ==> b == a.push(x),
        !pushed ==> b == a,
    ensures
        forall|y: TrapFrameIssue| #[trigger] b.contains(y) <==> (a.contains(y) || (pushed && y == x)),
{
    if pushed {
        assert forall|y: TrapFrameIssue| #[trigger] b.contains(y) <==> (a.contains(y) || y == x) by {
            if a.contains(y) {
                let i = choose|i: int| 0 <= i < a.len() && a[i] == y;
                assert(b[i] == y);
            }
            if y == x {
                assert(b[a.len() as int] == x);
            }
            if b.contains(y) {
                let i = choose|i: int| 0 <= i < b.len() && b[i] == y;
                if i < a.len() {
                    assert(a[i] == y);
                }
            }
        }
    }
}

/// The part of a frame that an exception's `iretq` consumes; the scheduler
/// hands it out to redirect a faulting process's return to the next process.
#[derive(Clone, Copy, Debug, PartialEq, Eq, Structural)]
pub struct IretFrame {
    pub rip: u64,
    pub cs: u64,
    pub rflags: u64,
    pub rsp: u64,
    pub ss: u64,
}

impl IretFrame {
    /// The hardware part of `tf`.
    pub fn of(tf: &TrapFrame) -> (r: Self)
        ensures
            r.rip == tf.rip && r.cs == tf.cs && r.rflags == tf.rflags && r.rsp == tf.rsp && r.ss == tf.ss,
    {
        IretFrame { rip: tf.rip, cs: tf.cs, rflags: tf.rflags, rsp: tf.rsp, ss: tf.ss }
    }
}

} // verus!
