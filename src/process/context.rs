use vstd::prelude::*;

verus! {

/// The callee-saved registers of a kernel-mode context and where it resumes.
#[derive(Clone, Copy, Debug, PartialEq, Eq, Structural)]
pub struct Context {
    pub r15: u64,
    pub r14: u64,
    pub r13: u64,
    pub r12: u64,
    pub rbx: u64,
    pub rbp: u64,
    pub rip: u64,
}

impl Context {
    /// A context that resumes at `entry_point` with frame pointer `stack`.
    pub fn new(entry_point: u64, stack: u64) -> (r: Self)
        ensures
            r.r15 == 0 && r.r14 == 0 && r.r13 == 0 && r.r12 == 0 && r.rbx == 0,
            r.rbp == stack,
            r.rip == entry_point,
    {
        Context { r15: 0, r14: 0, r13: 0, r12: 0, rbx: 0, rbp: stack, rip: entry_point }
    }

    /// An all-zero context.
    pub fn empty() -> (r: Self)
        ensures
            r.r15 == 0 && r.r14 == 0 && r.r13 == 0 && r.r12 == 0 && r.rbx == 0 && r.rbp == 0 && r.rip == 0,
    {
        Context { r15: 0, r14: 0, r13: 0, r12: 0, rbx: 0, rbp: 0, rip: 0 }
    }
}

} // verus!
