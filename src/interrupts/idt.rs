use vstd::prelude::*;

verus! {

pub const PRESENT: u16 = 0x8000;
pub const INTERRUPT_GATE: u16 = 0x0E00;
pub const DPL_MASK: u16 = 0x6000;
pub const IST_MASK: u16 = 0x0007;
/// Code-segment selector of the kernel.
pub const KERNEL_CODE_SELECTOR: u16 = 8;
/// Number of vectors in the table.
pub const IDT_ENTRIES: usize = 256;

/// The 16-bit attribute word of a gate: present bit (15), DPL (14..13),
/// gate type (11..8) and IST index (2..0).
#[derive(Clone, Copy, Debug, PartialEq, Eq, Structural)]
pub struct IdtEntryOptions(pub u16);

pub open spec fn options_present(o: IdtEntryOptions) -> bool {
    o.0 & PRESENT != 0
}

pub open spec fn options_dpl(o: IdtEntryOptions) -> u16 {
    (o.0 & DPL_MASK) >> 13
}

pub open spec fn options_ist(o: IdtEntryOptions) -> u16 {
    o.0 & IST_MASK
}

impl IdtEntryOptions {
    /// A present interrupt gate with DPL 0 and no IST stack.
    pub fn new() -> (r: Self)
        ensures
            r.0 == PRESENT | INTERRUPT_GATE,
            options_present(r),
            options_dpl(r) == 0,
            options_ist(r) == 0,
    {
        let v: u16 = PRESENT | INTERRUPT_GATE;
        assert(v & PRESENT != 0 && (v & DPL_MASK) >> 13 == 0 && v & IST_MASK == 0) by (bit_vector)
            requires v == 0x8000u16 | 0x0E00u16;
        IdtEntryOptions(v)
    }

    /// Sets or clears the present bit, keeping the other bits.
    pub fn set_present(self, present: bool) -> (r: Self)
        ensures
            r.0 == (self.0 & !PRESENT) | (if present { PRESENT } else { 0 }),
            options_present(r) == present,
            options_dpl(r) == options_dpl(self),
            options_ist(r) == options_ist(self),
    {
        let old = self.0;
        let bit: u16 = if present { PRESENT } else { 0 };
        let v = (old & !PRESENT) | bit;
        assert((v & PRESENT != 0) == (bit != 0) && (v & DPL_MASK) >> 13 == (old & DPL_MASK) >> 13
            && v & IST_MASK == old & IST_MASK) by (bit_vector)
            requires v == (old & !0x8000u16) | bit, bit == 0 || bit == 0x8000u16;
        IdtEntryOptions(v)
    }

    /// Sets the descriptor privilege level to the low two bits of `dpl`.
    pub fn set_privilege_level(self, dpl: u16) -> (r: Self)
        ensures
            r.0 == (self.0 & !DPL_MASK) | ((dpl & 3) << 13),
            options_dpl(r) == dpl & 3,
            options_present(r) == options_present(self),
            options_ist(r) == options_ist(self),
    {
        let old = self.0;
        let v = (old & !DPL_MASK) | ((dpl & 3) << 13);
        assert((v & DPL_MASK) >> 13 == dpl & 3 && (v & PRESENT != 0) == (old & PRESENT != 0)
            && v & IST_MASK == old & IST_MASK) by (bit_vector)
            requires v == (old & !0x6000u16) | ((dpl & 3) << 13);
        IdtEntryOptions(v)
    }

    /// Sets the interrupt-stack-table index (0 = no IST, 1..7 = IST stack).
    pub fn set_stack_index(self, index: u16) -> (r: Self)
        requires
            index < 8,
        ensures
            r.0 == (self.0 & !IST_MASK) | index,
            options_ist(r) == index,
            options_present(r) == options_present(self),
            options_dpl(r) == options_dpl(self),
    {
        let old = self.0;
        let v = (old & !IST_MASK) | index;
        assert(v & IST_MASK == index && (v & PRESENT != 0) == (old & PRESENT != 0)
            && (v & DPL_MASK) >> 13 == (old & DPL_MASK) >> 13) by (bit_vector)
            requires v == (old & !7u16) | index, index < 8;
        IdtEntryOptions(v)
    }
}

/// One 16-byte gate descriptor of the interrupt descriptor table.
#[derive(Clone, Copy, Debug, PartialEq, Eq, Structural)]
pub struct IdtEntry {
    pub pointer_low: u16,
    pub gdt_selector: u16,
    pub options: IdtEntryOptions,
    pub pointer_middle: u16,
    pub pointer_high: u32,
    pub reserved: u32,
}

/// The handler address that an entry encodes.
pub open spec fn entry_handler(e: IdtEntry) -> u64 {
    (e.pointer_low as u64) | ((e.pointer_middle as u64) << 16) | ((e.pointer_high as u64) << 32)
}

impl IdtEntry {
    /// An absent gate: every field zero.
    pub fn missing() -> (r: Self)
        ensures
            r.pointer_low == 0 && r.pointer_middle == 0 && r.pointer_high == 0,
            r.gdt_selector == 0,
            r.options.0 == 0,
            r.reserved == 0,
            !options_present(r.options),
    {
        let r = IdtEntry {
            gdt_selector: 0,
            pointer_low: 0,
            pointer_middle: 0,
            pointer_high: 0,
            options: IdtEntryOptions(0),
            reserved: 0,
        };
        assert(0u16 & 0x8000u16 == 0) by (bit_vector);
        r
    }

    /// Points the entry at `addr` in the kernel code segment and marks it present.
    pub fn set_handler_addr(&mut self, addr: u64) -> (r: &mut Self)
        ensures
            r.pointer_low == addr as u16,
            r.pointer_middle == (addr >> 16) as u16,
            r.pointer_high == (addr >> 32) as u32,
            entry_handler(*r) == addr,
            r.gdt_selector == KERNEL_CODE_SELECTOR,
            r.options == old(self).options.set_present_spec(true),
            options_present(r.options),
            options_dpl(r.options) == options_dpl(old(self).options),
            options_ist(r.options) == options_ist(old(self).options),
            r.reserved == old(self).reserved,
            *final(self) == *final(r),
    {
        self.pointer_low = addr as u16;
        self.pointer_middle = (addr >> 16) as u16;
        self.pointer_high = (addr >> 32) as u32;
        self.gdt_selector = KERNEL_CODE_SELECTOR;
        self.options = self.options.set_present(true);
        assert(((addr as u16) as u64) | ((((addr >> 16) as u16) as u64) << 16)
            | ((((addr >> 32) as u32) as u64) << 32) == addr) by (bit_vector);
        self
    }
}

impl IdtEntryOptions {
    pub open spec fn set_present_spec(self, present: bool) -> IdtEntryOptions {
        IdtEntryOptions((self.0 & !PRESENT) | (if present { PRESENT } else { 0 }))
    }
}

/// The 256-entry interrupt descriptor table.
pub struct InterruptDescriptorTable {
    pub entries: Vec<IdtEntry>,
}

impl InterruptDescriptorTable {
    pub open spec fn wf(&self) -> bool {
        self.entries@.len() == IDT_ENTRIES
    }

    /// A table whose 256 gates are all absent.
    pub fn new() -> (r: Self)
        ensures
            r.wf(),
            forall|i: int| 0 <= i < IDT_ENTRIES ==> r.entries@[i] == IdtEntry::missing_spec(),
    {
        let mut entries: Vec<IdtEntry> = Vec::new();
        let mut i: usize = 0;
        while i < IDT_ENTRIES
            invariant
                i <= IDT_ENTRIES,
                entries@.len() == i,
                forall|j: int| 0 <= j < i ==> entries@[j] == IdtEntry::missing_spec(),
            decreases IDT_ENTRIES - i,
        {
            entries.push(IdtEntry::missing());
            i = i + 1;
        }
        InterruptDescriptorTable { entries }
    }

    /// Installs handler `handler` at `vector`, leaving the other gates unchanged.
    pub fn add_handler(&mut self, vector: u8, handler: u64)
        requires
            old(self).wf(),
        ensures
            final(self).wf(),
            entry_handler(final(self).entries@[vector as int]) == handler,
            final(self).entries@[vector as int].gdt_selector == KERNEL_CODE_SELECTOR,
            options_present(final(self).entries@[vector as int].options),
            options_dpl(final(self).entries@[vector as int].options)
                == options_dpl(old(self).entries@[vector as int].options),
            options_ist(final(self).entries@[vector as int].options)
                == options_ist(old(self).entries@[vector as int].options),
            final(self).entries@[vector as int].options
                == old(self).entries@[vector as int].options.set_present_spec(true),
            forall|i: int| 0 <= i < IDT_ENTRIES && i != vector as int ==> final(self).entries@[i] == old(self).entries@[i],
    {
        let mut e = self.entries[vector as usize];
        e.set_handler_addr(handler);
        self.entries.set(vector as usize, e);
    }

    /// Installs `handler` at `vector` with IST stack `ist` (1..7).
    pub fn add_handler_with_stack(&mut self, vector: u8, handler: u64, ist: u16)
        requires
            old(self).wf(),
            ist < 8,
        ensures
            final(self).wf(),
            entry_handler(final(self).entries@[vector as int]) == handler,
            options_present(final(self).entries@[vector as int].options),
            options_ist(final(self).entries@[vector as int].options) == ist,
            options_dpl(final(self).entries@[vector as int].options)
                == options_dpl(old(self).entries@[vector as int].options),
            forall|i: int| 0 <= i < IDT_ENTRIES && i != vector as int ==> final(self).entries@[i] == old(self).entries@[i],
    {
        let mut e = self.entries[vector as usize];
        e.set_handler_addr(handler);
        e.options = e.options.set_stack_index(ist);
        self.entries.set(vector as usize, e);
    }

    /// Sets the privilege level of the entry at `vector`.
    pub fn set_privilege_level(&mut self, vector: u8, dpl: u16)
        requires
            old(self).wf(),
        ensures
            final(self).wf(),
            options_dpl(final(self).entries@[vector as int].options) == dpl & 3,
            options_present(final(self).entries@[vector as int].options)
                == options_present(old(self).entries@[vector as int].options),
            options_ist(final(self).entries@[vector as int].options)
                == options_ist(old(self).entries@[vector as int].options),
            entry_handler(final(self).entries@[vector as int]) == entry_handler(old(self).entries@[vector as int]),
            forall|i: int| 0 <= i < IDT_ENTRIES && i != vector as int ==> final(self).entries@[i] == old(self).entries@[i],
    {
        let mut e = self.entries[vector as usize];
        e.options = e.options.set_privilege_level(dpl);
        self.entries.set(vector as usize, e);
    }
}

impl IdtEntry {
    pub open spec fn missing_spec() -> IdtEntry {
        IdtEntry {
            gdt_selector: 0,
            pointer_low: 0,
            pointer_middle: 0,
            pointer_high: 0,
            options: IdtEntryOptions(0),
            reserved: 0,
        }
    }
}

/// Addresses of the handlers that the kernel installs.
#[derive(Clone, Copy, Debug)]
pub struct HandlerAddresses {
    pub divide_by_zero: u64,
    pub invalid_opcode: u64,
    pub double_fault: u64,
    pub general_protection: u64,
    pub page_fault: u64,
    pub timer: u64,
    pub keyboard: u64,
    pub syscall: u64,
}

/// IST slot (1-based, as stored in a gate) of the double-fault stack.
pub const DOUBLE_FAULT_IST: u16 = 1;
/// Vector of the system-call gate.
pub const SYSCALL_VECTOR: u8 = 0x80;

/// Builds the kernel's table: exceptions 0, 6, 8 (on its own IST stack), 13
/// and 14, the timer (32) and keyboard (33) lines, and the system-call gate
/// 0x80, the only one user code may invoke (DPL 3).
pub fn init_idt(h: &HandlerAddresses) -> (r: InterruptDescriptorTable)
    ensures
        r.wf(),
        entry_handler(r.entries@[0]) == h.divide_by_zero,
        entry_handler(r.entries@[6]) == h.invalid_opcode,
        entry_handler(r.entries@[8]) == h.double_fault,
        options_ist(r.entries@[8].options) == DOUBLE_FAULT_IST,
        entry_handler(r.entries@[13]) == h.general_protection,
        entry_handler(r.entries@[14]) == h.page_fault,
        entry_handler(r.entries@[32]) == h.timer,
        entry_handler(r.entries@[33]) == h.keyboard,
        entry_handler(r.entries@[0x80]) == h.syscall,
        options_dpl(r.entries@[0x80].options) == 3,
        forall|i: int| 0 <= i < IDT_ENTRIES && i != 0 && i != 6 && i != 8 && i != 13 && i != 14
            && i != 32 && i != 33 && i != 0x80 ==> r.entries@[i] == IdtEntry::missing_spec(),
        forall|i: int| 0 <= i < IDT_ENTRIES && (i == 0 || i == 6 || i == 8 || i == 13 || i == 14
            || i == 32 || i == 33 || i == 0x80) ==> options_present(r.entries@[i].options),
        forall|i: int| 0 <= i < IDT_ENTRIES && i != 0x80 ==> options_dpl(r.entries@[i].options) == 0,
{
    let mut idt = InterruptDescriptorTable::new();
    assert(options_dpl(IdtEntry::missing_spec().options) == 0 && options_ist(IdtEntry::missing_spec().options) == 0)
        by {
        assert((0u16 & 0x6000u16) >> 13 == 0 && 0u16 & 7u16 == 0) by (bit_vector);
    }
    idt.add_handler(0, h.divide_by_zero);
    idt.add_handler(6, h.invalid_opcode);
    idt.add_handler_with_stack(8, h.double_fault, DOUBLE_FAULT_IST);
    idt.add_handler(13, h.general_protection);
    idt.add_handler(14, h.page_fault);
    idt.add_handler(32, h.timer);
    idt.add_handler(33, h.keyboard);
    idt.add_handler(SYSCALL_VECTOR, h.syscall);
    idt.set_privilege_level(SYSCALL_VECTOR, 3);
    assert(3u16 & 3u16 == 3) by (bit_vector);
    idt
}

} // verus!
