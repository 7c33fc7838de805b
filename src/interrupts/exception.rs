use vstd::prelude::*;

verus! {

/// The frame that the CPU pushes on an interrupt: the fields `iretq` consumes.
#[derive(Clone, Copy, Debug)]
pub struct ExceptionStackFrame {
    pub instruction_pointer: u64,
    pub code_segment: u64,
    pub cpu_flags: u64,
    pub stack_pointer: u64,
    pub stack_segment: u64,
}

impl ExceptionStackFrame {
    /// An all-zero frame.
    pub fn new() -> (r: Self)
        ensures
            r.instruction_pointer == 0,
            r.code_segment == 0,
            r.cpu_flags == 0,
            r.stack_pointer == 0,
            r.stack_segment == 0,
    {
        ExceptionStackFrame {
            instruction_pointer: 0,
            code_segment: 0,
            cpu_flags: 0,
            stack_pointer: 0,
            stack_segment: 0,
        }
    }

    /// True when the interrupted code ran in a user ring (non-zero RPL in CS).
    pub fn from_user_mode(&self) -> (r: bool)
        ensures
            r == (self.code_segment & 3 != 0),
    {
        self.code_segment & 3 != 0
    }
}

} // verus!
