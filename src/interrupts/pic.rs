use vstd::prelude::*;

verus! {

pub const CMD_INIT: u8 = 0x11;
pub const CMD_END_OF_INTERRUPT: u8 = 0x20;
pub const PIC1_COMMAND: u16 = 0x20;
pub const PIC1_DATA: u16 = 0x21;
pub const PIC2_COMMAND: u16 = 0xA0;
pub const PIC2_DATA: u16 = 0xA1;
/// First vector of the master PIC's lines.
pub const PIC1_OFFSET: u8 = 32;
/// First vector of the slave PIC's lines.
pub const PIC2_OFFSET: u8 = 40;

/// Hardware interrupt lines in use, named by their remapped vector.
#[derive(Clone, Copy, Debug, PartialEq, Eq, Structural)]
pub enum Irq {
    Timer,
    Keyboard,
}

pub open spec fn irq_vector(irq: Irq) -> u8 {
    match irq {
        Irq::Timer => 32,
        Irq::Keyboard => 33,
    }
}

impl Irq {
    /// The interrupt vector of this line.
    pub fn as_u8(self) -> (r: u8)
        ensures
            r == irq_vector(self),
    {
        match self {
            Irq::Timer => PIC1_OFFSET,
            Irq::Keyboard => PIC1_OFFSET + 1,
        }
    }
}

/// The port writes (port, byte) that remap both 8259 PICs to vectors 32..47,
/// given the masks read beforehand from their data ports, which are restored last.
pub fn initialize(pic1_mask: u8, pic2_mask: u8) -> (r: Vec<(u16, u8)>)
    ensures
        r@ == seq![
            (PIC1_COMMAND, CMD_INIT), (PIC2_COMMAND, CMD_INIT),
            (PIC1_DATA, PIC1_OFFSET), (PIC2_DATA, PIC2_OFFSET),
            (PIC1_DATA, 4u8), (PIC2_DATA, 2u8),
            (PIC1_DATA, 1u8), (PIC2_DATA, 1u8),
            (PIC1_DATA, pic1_mask), (PIC2_DATA, pic2_mask),
        ],
{
    let mut v: Vec<(u16, u8)> = Vec::new();
    v.push((PIC1_COMMAND, CMD_INIT));
    v.push((PIC2_COMMAND, CMD_INIT));
    v.push((PIC1_DATA, PIC1_OFFSET));
    v.push((PIC2_DATA, PIC2_OFFSET));
    v.push((PIC1_DATA, 4));
    v.push((PIC2_DATA, 2));
    v.push((PIC1_DATA, 1));
    v.push((PIC2_DATA, 1));
    v.push((PIC1_DATA, pic1_mask));
    v.push((PIC2_DATA, pic2_mask));
    assert(v@ =~= seq![
        (PIC1_COMMAND, CMD_INIT), (PIC2_COMMAND, CMD_INIT),
        (PIC1_DATA, PIC1_OFFSET), (PIC2_DATA, PIC2_OFFSET),
        (PIC1_DATA, 4u8), (PIC2_DATA, 2u8),
        (PIC1_DATA, 1u8), (PIC2_DATA, 1u8),
        (PIC1_DATA, pic1_mask), (PIC2_DATA, pic2_mask),
    ]);
    v
}

/// The port writes that acknowledge interrupt vector `irq`: the slave PIC is
/// acknowledged too when the vector is one of its lines.
pub fn end_of_interrupt(irq: u8) -> (r: Vec<(u16, u8)>)
    ensures
        irq >= PIC2_OFFSET ==> r@ == seq![(PIC2_COMMAND, CMD_END_OF_INTERRUPT), (PIC1_COMMAND, CMD_END_OF_INTERRUPT)],
        irq < PIC2_OFFSET ==> r@ == seq![(PIC1_COMMAND, CMD_END_OF_INTERRUPT)],
{
    let mut v: Vec<(u16, u8)> = Vec::new();
    if irq >= PIC2_OFFSET {
        v.push((PIC2_COMMAND, CMD_END_OF_INTERRUPT));
    }
    v.push((PIC1_COMMAND, CMD_END_OF_INTERRUPT));
    proof {
        if irq >= PIC2_OFFSET {
            assert(v@ =~= seq![(PIC2_COMMAND, CMD_END_OF_INTERRUPT), (PIC1_COMMAND, CMD_END_OF_INTERRUPT)]);
        } else {
            assert(v@ =~= seq![(PIC1_COMMAND, CMD_END_OF_INTERRUPT)]);
        }
    }
    v
}

/// The data port that holds the mask bit of IRQ line `irq_line`.
pub fn irq_mask_port(irq_line: u8) -> (r: u16)
    ensures
        r == (if irq_line < 8 { PIC1_DATA } else { PIC2_DATA }),
{
    if irq_line < 8 { PIC1_DATA } else { PIC2_DATA }
}

/// Unmasks IRQ line `irq_line` (0..15): given the mask currently in its data
/// port, returns the port and the mask to write back, with that line's bit cleared.
pub fn enable_irq(irq_line: u8, current_mask: u8) -> (r: (u16, u8))
    requires
        irq_line < 16,
    ensures
        r.0 == (if irq_line < 8 { PIC1_DATA } else { PIC2_DATA }),
        r.1 == current_mask & !(1u8 << (if irq_line < 8 { irq_line } else { (irq_line - 8) as u8 })),
{
    let port = irq_mask_port(irq_line);
    let line: u8 = if irq_line < 8 { irq_line } else { irq_line - 8 };
    (port, current_mask & !(1u8 << line))
}

} // verus!
