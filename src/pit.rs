use vstd::prelude::*;

verus! {

/// Channel 0 data port of the programmable interval timer.
pub const PIT_CHANNEL_0_DATA: u16 = 0x40;
/// Command port of the timer.
pub const PIT_COMMAND: u16 = 0x43;
/// Channel 0, low then high byte, mode 2 (rate generator).
pub const PIT_RATE_GENERATOR: u8 = 0x34;
/// Input clock of the timer, in Hz.
pub const PIT_INPUT_HZ: u32 = 1193182;

/// The port writes that make the timer tick `frequency` times a second:
/// the mode command, then the divisor 1193182 / frequency, low byte first.
pub fn init(frequency: u32) -> (r: Vec<(u16, u8)>)
    requires
        frequency > 0,
    ensures
        r@ == seq![
            (PIT_COMMAND, PIT_RATE_GENERATOR),
            (PIT_CHANNEL_0_DATA, ((PIT_INPUT_HZ / frequency) % 256) as u8),
            (PIT_CHANNEL_0_DATA, ((PIT_INPUT_HZ / frequency) / 256 % 256) as u8),
        ],
{
    let divisor = PIT_INPUT_HZ / frequency;
    let l = (divisor & 0xFF) as u8;
    let h = ((divisor >> 8) & 0xFF) as u8;
    assert(divisor & 0xFF == divisor % 256 && (divisor >> 8) & 0xFF == divisor / 256 % 256) by (bit_vector);
    let mut v: Vec<(u16, u8)> = Vec::new();
    v.push((PIT_COMMAND, PIT_RATE_GENERATOR));
    v.push((PIT_CHANNEL_0_DATA, l));
    v.push((PIT_CHANNEL_0_DATA, h));
    assert(v@ =~= seq![
        (PIT_COMMAND, PIT_RATE_GENERATOR),
        (PIT_CHANNEL_0_DATA, ((PIT_INPUT_HZ / frequency) % 256) as u8),
        (PIT_CHANNEL_0_DATA, ((PIT_INPUT_HZ / frequency) / 256 % 256) as u8),
    ]);
    v
}

} // verus!
