use vstd::prelude::*;
use crate::memory::vma::{Vma, VmaKind};

verus! {

/// Error-code bit: the page was present (a protection violation).
pub const PF_PRESENT: u64 = 1;
/// Error-code bit: the access was a write.
pub const PF_WRITE: u64 = 2;
/// Error-code bit: the access came from user mode.
pub const PF_USER: u64 = 4;
/// Error-code bit: a reserved bit was set in a page-table entry.
pub const PF_RESERVED: u64 = 8;

/// Why a page fault was not resolved.
#[derive(Clone, Copy, Debug, PartialEq, Eq, Structural)]
pub enum FaultReason {
    ReservedBit,
    KernelMode,
    ProtectionViolation,
    /// No area of the process contains the faulting address.
    NoVma(u64),
    /// A code page was absent: code is mapped eagerly, never on demand.
    CodePageNotPresent,
    OutOfMemory,
    /// The page is mapped already.
    AlreadyMapped,
}

pub open spec fn classify_spec(error_code: u64) -> Result<(), FaultReason> {
    if error_code & PF_RESERVED != 0 {
        Err(FaultReason::ReservedBit)
    } else if error_code & PF_USER == 0 {
        Err(FaultReason::KernelMode)
    } else if error_code & PF_PRESENT != 0 {
        Err(FaultReason::ProtectionViolation)
    } else {
        Ok(())
    }
}

/// Can demand paging resolve a fault with this error code? Only a user-mode
/// access to a page that is not present, with no reserved bit set.
pub fn is_demand_pageable(error_code: u64) -> (r: Result<(), FaultReason>)
    ensures
        r == classify_spec(error_code),
{
    if error_code & PF_RESERVED != 0 {
        return Err(FaultReason::ReservedBit);
    }
    if error_code & PF_USER == 0 {
        return Err(FaultReason::KernelMode);
    }
    if error_code & PF_PRESENT != 0 {
        return Err(FaultReason::ProtectionViolation);
    }
    Ok(())
}

/// What the page-fault handler does.
#[derive(Clone, Copy, Debug, PartialEq, Eq, Structural)]
pub enum FaultAction {
    /// Map a zeroed frame at the faulting page, as the area says.
    DemandPage(Vma),
    /// Kill the current (user) process and run the next Ready one.
    Kill(FaultReason),
    /// A kernel fault: stop the machine.
    Panic(FaultReason),
}

pub open spec fn fault_action_spec(error_code: u64, fault_addr: u64, vma: Option<Vma>) -> FaultAction {
    match classify_spec(error_code) {
        Err(reason) => if error_code & PF_USER != 0 {
            FaultAction::Kill(reason)
        } else {
            FaultAction::Panic(reason)
        },
        Ok(()) => match vma {
            None => FaultAction::Kill(FaultReason::NoVma(fault_addr)),
            Some(v) => FaultAction::DemandPage(v),
        },
    }
}

/// The decision of the page-fault handler, from the error code, the faulting
/// address and the area of the current process that contains it (if any):
/// a fault that demand paging cannot serve kills a user process and panics
/// in the kernel; an address outside every area kills the process.
pub fn page_fault_action(error_code: u64, fault_addr: u64, vma: Option<Vma>) -> (r: FaultAction)
    ensures
        r == fault_action_spec(error_code, fault_addr, vma),
{
    match is_demand_pageable(error_code) {
        Err(reason) => {
            if error_code & PF_USER != 0 {
                FaultAction::Kill(reason)
            } else {
                FaultAction::Panic(reason)
            }
        },
        Ok(()) => match vma {
            None => FaultAction::Kill(FaultReason::NoVma(fault_addr)),
            Some(v) => FaultAction::DemandPage(v),
        },
    }
}

/// After a failed attempt to map a demand page: kill a user process, panic
/// for a kernel one.
pub fn map_failure_action(error_code: u64, reason: FaultReason) -> (r: FaultAction)
    ensures
        error_code & PF_USER != 0 ==> r == FaultAction::Kill(reason),
        error_code & PF_USER == 0 ==> r == FaultAction::Panic(reason),
{
    if error_code & PF_USER != 0 {
        FaultAction::Kill(reason)
    } else {
        FaultAction::Panic(reason)
    }
}

/// A user-mode fault outside every area kills the process, naming the address.
pub proof fn lemma_outside_vma_kills(error_code: u64, fault_addr: u64)
    requires
        error_code & PF_USER != 0,
        error_code & PF_PRESENT == 0,
        error_code & PF_RESERVED == 0,
    ensures
        fault_action_spec(error_code, fault_addr, None) == FaultAction::Kill(FaultReason::NoVma(fault_addr)),
{
}

/// A kernel-mode fault panics, whatever the address and the areas, with the
/// reason read from the error code.
pub proof fn lemma_kernel_fault_panics(error_code: u64, fault_addr: u64, vma: Option<Vma>)
    requires
        error_code & PF_USER == 0,
    ensures
        fault_action_spec(error_code, fault_addr, vma) == FaultAction::Panic(
            if error_code & PF_RESERVED != 0 { FaultReason::ReservedBit } else { FaultReason::KernelMode }),
{
}

/// The page that contains `addr`.
pub fn page_of(addr: u64) -> (r: u64)
    ensures
        r == addr - addr % 4096,
        r % 4096 == 0,
        r <= addr < r + 4096,
{
    let r = addr & !0xFFFu64;
    assert(addr & !0xFFFu64 == addr - addr % 4096) by (bit_vector);
    r
}

} // verus!
