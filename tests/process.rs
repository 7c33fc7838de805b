use kernel::memory::address_space::AddressSpace;
use kernel::process::context::Context;
use kernel::process::file::{Device, DeviceKind, FileDescriptorTable, FileError};
use kernel::process::scheduler::{current_pid, find_current_vma, Pid, Process, ProcessState, Scheduler};
use kernel::process::trapframe::{TrapFrame, TrapFrameIssue};
use kernel::drivers::{open_device, dev_null, dev_zero};

fn proc_with(pid: usize, priority: u8) -> Process {
    let mut p = Process::new_user(Pid(pid), 0x40_0000, 0x7100_0000_fff8, 0x9000, AddressSpace::kernel(0x1000 * (pid as u64 + 1)));
    p.set_priority(priority);
    p
}

#[test]
fn quantum_formula() {
    assert_eq!(Scheduler::quantum_for(0), 2);
    assert_eq!(Scheduler::quantum_for(5), 7);
    assert_eq!(Scheduler::quantum_for(8), 10);
}

#[test]
fn pids_increase() {
    let mut s = Scheduler::new();
    assert_eq!(s.allocate_pid(), Pid(1));
    assert_eq!(s.allocate_pid(), Pid(2));
}

#[test]
fn higher_priority_runs_first() {
    let mut s = Scheduler::new();
    s.add_process(proc_with(1, 3));
    s.add_process(proc_with(2, 8));
    s.add_process(proc_with(3, 5));
    let t = s.start_first().unwrap();
    assert_eq!(t.pid, Pid(2));
    assert_eq!(current_pid(&s), Some(2));
    assert_eq!(t.trapframe.rip, 0x40_0000);
    assert_eq!(t.root, 0x3000);
}

#[test]
fn slice_ends_after_quantum_ticks() {
    let mut s = Scheduler::new();
    s.add_process(proc_with(1, 5));
    s.add_process(proc_with(2, 5));
    s.start_first().unwrap();
    for _ in 0..6 {
        assert!(!s.tick());
    }
    assert!(s.tick());
    let tf = TrapFrame::new_user(0x40_0010, 0x7100_0000_ff00, 0x20, 0x18);
    let next = s.switch_to_next(tf).unwrap();
    assert_eq!(next.pid, Pid(2));
    // Both decayed to priority 4; pid 1 went back first.
    let again = s.switch_to_next(next.trapframe).unwrap();
    assert_eq!(again.pid, Pid(1));
}

#[test]
fn decayed_process_comes_back_after_aging() {
    let mut s = Scheduler::new();
    s.add_process(proc_with(1, 5));
    s.add_process(proc_with(2, 5));
    s.start_first().unwrap();
    let t = s.switch_to_next(TrapFrame::zeroed()).unwrap();
    assert_eq!(t.pid, Pid(2));
    // pid 1 now waits at priority 4; after one aging epoch it is back at 5.
    for _ in 0..50 {
        s.tick();
    }
    let t = s.switch_to_next(TrapFrame::zeroed()).unwrap();
    assert_eq!(t.pid, Pid(1));
}

#[test]
fn kill_switches_to_another_ready_process() {
    let mut s = Scheduler::new();
    s.add_process(proc_with(1, 5));
    s.add_process(proc_with(2, 4));
    s.start_first().unwrap();
    let f = s.kill_and_switch().unwrap();
    assert_eq!(current_pid(&s), Some(2));
    assert_eq!(f.rip, 0x40_0000);
    assert_eq!(f.cs, 0x23);
    assert_eq!(s.iter_all().len(), 2);
    assert!(s.kill_current());
    assert_eq!(s.kill_and_switch(), None);
}

#[test]
fn idle_is_not_started_first() {
    let mut s = Scheduler::new();
    s.add_process(proc_with(0, 0));
    assert!(s.start_first().is_none());
    let mut k = proc_with(7, 1);
    k.state = ProcessState::Ready;
    s.add_process(k);
    assert_eq!(s.start_first().unwrap().pid, Pid(7));
}

#[test]
fn current_vma_lookup() {
    let mut s = Scheduler::new();
    let mut p = proc_with(1, 5);
    p.address_space.add_vma(kernel::memory::vma::Vma {
        start: 0x7100_0000_0000, size_pages: 16, flags: 7, kind: kernel::memory::vma::VmaKind::Anonymous,
    }).unwrap();
    s.add_process(p);
    assert!(find_current_vma(&s, 0x7100_0000_0000).is_none());
    s.start_first().unwrap();
    let (pid, v) = find_current_vma(&s, 0x7100_0000_2000).unwrap();
    assert_eq!(pid, 1);
    assert_eq!(v.start, 0x7100_0000_0000);
    assert!(find_current_vma(&s, 0x1000).is_none());
}

#[test]
fn process_names_and_priorities() {
    let mut p = proc_with(1, 12);
    assert_eq!(p.priority, 10);
    p.set_name(b"a_very_long_process_name");
    assert_eq!(p.name, b"a_very_long_pro".to_vec());
    let k = Process::new_kernel(Pid(4), 0x5000, 0x9000, AddressSpace::kernel(0x1000));
    assert_eq!(k.trapframe.rsp, 0x8ff8);
    assert_eq!(k.trapframe.cs, 0x08);
    assert_eq!(k.priority, 5);
}

#[test]
fn trapframes() {
    let t = TrapFrame::new_user(0x40_0000, 0x7100_0000_fff8, 0x20, 0x18);
    assert_eq!(t.cs, 0x23);
    assert_eq!(t.ss, 0x1b);
    assert_eq!(t.rflags, 0x202);
    assert_eq!(t.rax, 0);
    assert!(t.debug_print().is_empty());
    let bad = TrapFrame::new_kernel(0xFFFF_8000_0000_1000, 0x9001);
    let issues = bad.debug_print();
    assert!(issues.contains(&TrapFrameIssue::CsNotRing3));
    assert!(issues.contains(&TrapFrameIssue::SsNotRing3));
    assert!(issues.contains(&TrapFrameIssue::RipInKernelSpace));
    assert!(issues.contains(&TrapFrameIssue::RspMisaligned));
    assert!(!issues.contains(&TrapFrameIssue::InterruptsDisabled));
    let c = Context::new(0x1000, 0x2000);
    assert_eq!((c.rip, c.rbp), (0x1000, 0x2000));
    assert_eq!(Context::empty().rip, 0);
}

#[test]
fn descriptor_table() {
    let mut t = FileDescriptorTable::new_with_stdio();
    assert_eq!(t.get(0).unwrap().kind(), DeviceKind::Null);
    assert_eq!(t.get(1).unwrap().kind(), DeviceKind::Console);
    assert!(t.get(3).is_err());
    assert_eq!(t.allocate(dev_zero::open()), Ok(3));
    let mut buf = vec![7u8; 4];
    assert_eq!(t.read(3, &mut buf), Ok(4));
    assert_eq!(buf, vec![0; 4]);
    assert_eq!(t.read(0, &mut buf), Ok(0));
    assert_eq!(t.read(1, &mut buf), Err(FileError::NotSupported));
    assert_eq!(t.write(2, &b"hi".to_vec()), Ok(2));
    assert_eq!(t.take_output(2), b"hi".to_vec());
    assert_eq!(t.close(3), Ok(()));
    assert_eq!(t.close(3), Err(FileError::BadFileDescriptor));
    assert_eq!(t.close(16), Err(FileError::BadFileDescriptor));
    let names: Vec<_> = t.debug_list().into_iter().map(|(fd, n)| (fd, n.to_string())).collect();
    assert_eq!(names, vec![(0, "/dev/null".to_string()), (1, "serial".to_string()), (2, "serial".to_string())]);
    for _ in 3..16 {
        t.allocate(dev_null::open()).unwrap();
    }
    assert_eq!(t.allocate(dev_null::open()), Err(FileError::InvalidArgument));
    assert!(FileDescriptorTable::new().get(0).is_err());
}

#[test]
fn device_registry() {
    assert_eq!(open_device(b"/dev/null").unwrap().kind(), DeviceKind::Null);
    assert_eq!(open_device(b"/dev/zero").unwrap().kind(), DeviceKind::Zero);
    assert_eq!(open_device(b"/dev/console").unwrap().kind(), DeviceKind::Console);
    assert_eq!(open_device(b"/dev/fb").unwrap().kind(), DeviceKind::Fb);
    assert!(open_device(b"/dev/nope").is_none());
    assert!(open_device(b"/dev/nul").is_none());
    let mut d: Device = open_device(b"/dev/fb").unwrap();
    assert_eq!(d.write(&b"x".to_vec()), Ok(1));
    assert_eq!(d.name(), "fb");
}
