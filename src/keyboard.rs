use vstd::prelude::*;
use crate::keyboard_buffer::KeyboardBuffer;

verus! {

/// Scan code set 1, make codes of the keys the shell uses.
pub open spec fn ascii_of(scancode: u8) -> Option<char> {
    match scancode {
        0x02 => Some('1'), 0x03 => Some('2'), 0x04 => Some('3'), 0x05 => Some('4'),
        0x06 => Some('5'), 0x07 => Some('6'), 0x08 => Some('7'), 0x09 => Some('8'),
        0x0A => Some('9'), 0x0B => Some('0'),
        0x10 => Some('q'), 0x11 => Some('w'), 0x12 => Some('e'), 0x13 => Some('r'),
        0x14 => Some('t'), 0x15 => Some('y'), 0x16 => Some('u'), 0x17 => Some('i'),
        0x18 => Some('o'), 0x19 => Some('p'),
        0x1E => Some('a'), 0x1F => Some('s'), 0x20 => Some('d'), 0x21 => Some('f'),
        0x22 => Some('g'), 0x23 => Some('h'), 0x24 => Some('j'), 0x25 => Some('k'),
        0x26 => Some('l'),
        0x2C => Some('z'), 0x2D => Some('x'), 0x2E => Some('c'), 0x2F => Some('v'),
        0x30 => Some('b'), 0x31 => Some('n'), 0x32 => Some('m'),
        0x39 => Some(' '),
        0x1C => Some('\n'),
        0x0E => Some('\u{8}'),
        _ => None,
    }
}

/// The character of a make code (set 1), if the shell uses that key.
pub fn scancode_to_ascii(scancode: u8) -> (r: Option<char>)
    ensures
        r == ascii_of(scancode),
{
    match scancode {
        0x02 => Some('1'), 0x03 => Some('2'), 0x04 => Some('3'), 0x05 => Some('4'),
        0x06 => Some('5'), 0x07 => Some('6'), 0x08 => Some('7'), 0x09 => Some('8'),
        0x0A => Some('9'), 0x0B => Some('0'),
        0x10 => Some('q'), 0x11 => Some('w'), 0x12 => Some('e'), 0x13 => Some('r'),
        0x14 => Some('t'), 0x15 => Some('y'), 0x16 => Some('u'), 0x17 => Some('i'),
        0x18 => Some('o'), 0x19 => Some('p'),
        0x1E => Some('a'), 0x1F => Some('s'), 0x20 => Some('d'), 0x21 => Some('f'),
        0x22 => Some('g'), 0x23 => Some('h'), 0x24 => Some('j'), 0x25 => Some('k'),
        0x26 => Some('l'),
        0x2C => Some('z'), 0x2D => Some('x'), 0x2E => Some('c'), 0x2F => Some('v'),
        0x30 => Some('b'), 0x31 => Some('n'), 0x32 => Some('m'),
        0x39 => Some(' '),
        0x1C => Some('\n'),
        0x0E => Some('\u{8}'),
        _ => None,
    }
}

/// Handles one scan code read from the keyboard: a make code (below 0x80)
/// of a known key goes into `buffer`; break codes and other keys are ignored.
pub fn process_scancode(scancode: u8, buffer: &mut KeyboardBuffer)
    requires
        old(buffer).wf(),
    ensures
        final(buffer).wf(),
        (scancode >= 0x80 || ascii_of(scancode).is_none()) ==> final(buffer).contents() == old(buffer).contents(),
        scancode < 0x80 && ascii_of(scancode).is_some() && old(buffer).contents().len() < 127
            ==> final(buffer).contents() == old(buffer).contents().push(ascii_of(scancode).unwrap()),
{
    if scancode < 0x80 {
        match scancode_to_ascii(scancode) {
            Some(c) => buffer.push(c),
            None => {},
        }
    }
}

} // verus!
