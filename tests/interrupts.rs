use kernel::interrupts::exception::ExceptionStackFrame;
use kernel::interrupts::idt::{init_idt, HandlerAddresses, IdtEntry, IdtEntryOptions, InterruptDescriptorTable};
use kernel::interrupts::pic::{end_of_interrupt, enable_irq, initialize, irq_mask_port, Irq};
use kernel::init::init_hardware_interrupts;

#[test]
fn options_bits() {
    assert_eq!(IdtEntryOptions::new().0, 0x8E00);
    assert_eq!(IdtEntryOptions::new().set_present(false).0, 0x0E00);
    assert_eq!(IdtEntryOptions::new().set_privilege_level(3).0, 0xEE00);
    assert_eq!(IdtEntryOptions::new().set_privilege_level(7).0, 0xEE00);
    assert_eq!(IdtEntryOptions::new().set_stack_index(1).0, 0x8E01);
}

#[test]
fn entry_handler_address() {
    let mut e = IdtEntry::missing();
    assert_eq!(e.options.0, 0);
    e.set_handler_addr(0x1234_5678_9abc_def0);
    assert_eq!(e.pointer_low, 0xdef0);
    assert_eq!(e.pointer_middle, 0x9abc);
    assert_eq!(e.pointer_high, 0x1234_5678);
    assert_eq!(e.gdt_selector, 8);
    assert_eq!(e.options.0, 0x8000);
}

#[test]
fn kernel_table() {
    let h = HandlerAddresses {
        divide_by_zero: 0x1000, invalid_opcode: 0x1100, double_fault: 0x1200, general_protection: 0x1300,
        page_fault: 0x1400, timer: 0x1500, keyboard: 0x1600, syscall: 0x1700,
    };
    let t = init_idt(&h);
    assert_eq!(t.entries.len(), 256);
    assert_eq!(t.entries[14].pointer_low, 0x1400);
    assert_eq!(t.entries[0x80].options.0 & 0x6000, 0x6000);
    assert_eq!(t.entries[8].options.0 & 7, 1);
    assert_eq!(t.entries[32].options.0 & 0x6000, 0);
    assert_eq!(t.entries[1], IdtEntry::missing());
    let mut t2 = InterruptDescriptorTable::new();
    t2.add_handler(3, 0x42);
    assert_eq!(t2.entries[3].pointer_low, 0x42);
}

#[test]
fn pic_sequences() {
    assert_eq!(Irq::Timer.as_u8(), 32);
    assert_eq!(Irq::Keyboard.as_u8(), 33);
    let s = initialize(0xAB, 0xCD);
    assert_eq!(s.len(), 10);
    assert_eq!(s[0], (0x20, 0x11));
    assert_eq!(s[2], (0x21, 32));
    assert_eq!(s[3], (0xA1, 40));
    assert_eq!(s[8], (0x21, 0xAB));
    assert_eq!(s[9], (0xA1, 0xCD));
    assert_eq!(end_of_interrupt(33), vec![(0x20, 0x20)]);
    assert_eq!(end_of_interrupt(40), vec![(0xA0, 0x20), (0x20, 0x20)]);
    assert_eq!(enable_irq(1, 0xFF), (0x21, 0xFD));
    assert_eq!(enable_irq(9, 0xFF), (0xA1, 0xFD));
    assert_eq!(irq_mask_port(12), 0xA1);
    let all = init_hardware_interrupts(0xFF, 0xFF);
    assert_eq!(all[10], (0x21, 0xFC));
}

#[test]
fn exception_frame() {
    let mut f = ExceptionStackFrame::new();
    assert_eq!(f.instruction_pointer, 0);
    assert!(!f.from_user_mode());
    f.code_segment = 0x23;
    assert!(f.from_user_mode());
}

#[test]
fn timer_programming() {
    let w = kernel::pit::init(100);
    assert_eq!(w, vec![(0x43, 0x34), (0x40, (11931u32 & 0xFF) as u8), (0x40, (11931u32 >> 8) as u8)]);
}
