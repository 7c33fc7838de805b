use kernel::framebuffer::{draw_boot_screen, Framebuffer};
use kernel::keyboard::{process_scancode, scancode_to_ascii};
use kernel::keyboard_buffer::KeyboardBuffer;
use kernel::allocator::buddy_allocator::BuddyAllocator;
use kernel::init::{create_user_process, init_all, BootImage};
use kernel::process::scheduler::{Pid, Process, Scheduler};
use kernel::interrupts::exception::ExceptionStackFrame;
use kernel::init::kill_current_user_process;
use kernel::memory::address_space::AddressSpace;

#[test]
fn scancodes() {
    assert_eq!(scancode_to_ascii(0x1E), Some('a'));
    assert_eq!(scancode_to_ascii(0x02), Some('1'));
    assert_eq!(scancode_to_ascii(0x1C), Some('\n'));
    assert_eq!(scancode_to_ascii(0x0E), Some('\u{8}'));
    assert_eq!(scancode_to_ascii(0x01), None);
}

#[test]
fn keyboard_ring() {
    let mut k = KeyboardBuffer::new();
    assert_eq!(k.pop(), None);
    process_scancode(0x23, &mut k);
    process_scancode(0x9E, &mut k);
    process_scancode(0x17, &mut k);
    assert_eq!(k.len(), 2);
    assert_eq!(k.pop(), Some('h'));
    assert_eq!(k.pop(), Some('i'));
    assert_eq!(k.pop(), None);
    for i in 0..200 {
        k.push(if i % 2 == 0 { 'x' } else { 'y' });
    }
    assert_eq!(k.len(), 127);
    assert_eq!(k.pop(), Some('x'));
    assert_eq!(k.len(), 126);
}

#[test]
fn pixels_and_glyphs() {
    let mut fb = Framebuffer::new(vec![0u8; 16 * 16 * 4], 16, 16, 16, 4);
    assert_eq!(fb.dimensions(), (16, 16));
    fb.draw_pixel(1, 2, [10, 20, 30]);
    let off = (2 * 16 + 1) * 4;
    assert_eq!(&fb.as_bytes()[off..off + 4], &[10, 20, 30, 0]);
    fb.draw_pixel(16, 0, [1, 1, 1]);
    fb.clear([0, 0, 0]);
    assert!(fb.as_bytes().iter().all(|b| *b == 0));
    fb.draw_char(0, 0, b'A', [255, 255, 255], [0, 0, 0], 1);
    assert!(fb.as_bytes().iter().any(|b| *b == 255));
    let mut fb2 = Framebuffer::new(vec![0u8; 800 * 800 * 4], 800, 800, 800, 4);
    draw_boot_screen(&mut fb2);
    assert!(fb2.as_bytes().iter().any(|b| *b == 200));
}

#[test]
fn boot_processes() {
    let mut b = BuddyAllocator::new();
    b.add_region(0x100_0000, 0x400_0000);
    let mut s = Scheduler::new();
    let boot = BootImage { idle_entry: 0x1000, shell_entry: 0x2000, kernel_root: 0x3000, phys_offset: 0x1000_0000_0000 };
    let pages = init_all(&mut s, &mut b, &boot).unwrap();
    assert_eq!(pages.len(), 2);
    assert_eq!(pages[0].1.page, 0x40_0000);
    assert_ne!(pages[0].1.frame, pages[1].1.frame);
    assert_ne!(pages[0].0, pages[1].0);
    assert_eq!(s.iter_all().len(), 4);
    let first = s.start_first().unwrap();
    assert_eq!(first.trapframe.rip, 0x2000);
    let (pid, _root, m) = create_user_process(&mut s, &mut b, 5, 0x9000).unwrap();
    assert_eq!(pid.0, 4);
    assert_eq!(m.flags, 5);
}

#[test]
fn user_exception_redirects_to_next_process() {
    let mut s = Scheduler::new();
    s.add_process(Process::new_user(Pid(1), 0x40_0000, 0x7100_0000_fff8, 0x9000, AddressSpace::kernel(0x1000)));
    s.add_process(Process::new_user(Pid(2), 0x40_0040, 0x7100_0001_fff8, 0x9000, AddressSpace::kernel(0x2000)));
    s.start_first().unwrap();
    let mut f = ExceptionStackFrame::new();
    assert!(kill_current_user_process(&mut s, &mut f));
    assert_eq!(f.instruction_pointer, 0x40_0040);
    assert_eq!(f.stack_pointer, 0x7100_0001_fff8);
    assert_eq!(f.code_segment, 0x23);
    let mut g = ExceptionStackFrame::new();
    assert!(!kill_current_user_process(&mut s, &mut g));
    assert_eq!(g.instruction_pointer, 0);
    assert_eq!(kernel::init::debug_file_descriptors(&s).len(), 6);
}
