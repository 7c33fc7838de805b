use kernel::memory::address_space::AddressSpace;
use kernel::process::scheduler::{Pid, Process, Scheduler};
use kernel::process::syscall::{syscall_handler, validate_user_buffer, SyscallNumber, EBADF, EFAULT, ENOENT, ENOSYS, ESRCH};

fn running(n: usize) -> Scheduler {
    let mut s = Scheduler::new();
    for pid in 1..=n {
        s.add_process(Process::new_user(Pid(pid), 0x40_0000, 0x7100_0000_fff8, 0x9000, AddressSpace::kernel(0x1000)));
    }
    s.start_first().unwrap();
    s
}

#[test]
fn numbers() {
    assert_eq!(SyscallNumber::from_u64(1), Some(SyscallNumber::Write));
    assert_eq!(SyscallNumber::from_u64(39), Some(SyscallNumber::GetPid));
    assert_eq!(SyscallNumber::from_u64(60), Some(SyscallNumber::Exit));
    assert_eq!(SyscallNumber::from_u64(4), None);
}

#[test]
fn user_buffer_checks() {
    assert_eq!(validate_user_buffer(0x1000, 16), Ok(()));
    assert_eq!(validate_user_buffer(0, 16), Err(EFAULT));
    assert_eq!(validate_user_buffer(0x7FFF_FFFF_FFF0, 0x20), Err(EFAULT));
    assert_eq!(validate_user_buffer(0xFFFF_8000_0000_0000, 1), Err(EFAULT));
    assert_eq!(validate_user_buffer(u64::MAX, 2), Err(EFAULT));
}

#[test]
fn write_hello_to_stdout() {
    let mut s = running(1);
    let mut buf = b"hello".to_vec();
    assert_eq!(syscall_handler(&mut s, 1, 1, 0x40_1000, 5, 0, 0, 0, &mut buf), 5);
    assert_eq!(s.take_output(1), vec![b'h', b'e', b'l', b'l', b'o']);
}

#[test]
fn write_to_bad_descriptor() {
    let mut s = running(1);
    let mut buf = b"hello".to_vec();
    assert_eq!(syscall_handler(&mut s, 1, 99, 0x40_1000, 5, 0, 0, 0, &mut buf), -9);
    assert_eq!(syscall_handler(&mut s, 1, 99, 0x40_1000, 5, 0, 0, 0, &mut buf), EBADF);
    assert_eq!(syscall_handler(&mut s, 1, 1, 0, 5, 0, 0, 0, &mut buf), EFAULT);
}

#[test]
fn exit_then_next_tick_switches() {
    let mut s = running(2);
    let mut none = Vec::new();
    assert_eq!(s.current_pid(), Some(Pid(1)));
    assert_eq!(syscall_handler(&mut s, 60, 0, 0, 0, 0, 0, 0, &mut none), 0);
    assert_eq!(s.current_pid(), None);
    assert!(s.tick());
    let t = s.switch_to_next(kernel::process::trapframe::TrapFrame::zeroed()).unwrap();
    assert_eq!(t.pid, Pid(2));
    assert_eq!(syscall_handler(&mut s, 39, 0, 0, 0, 0, 0, 0, &mut none), 2);
}

#[test]
fn open_read_close() {
    let mut s = running(1);
    let mut path = b"/dev/zero\0garbage".to_vec();
    let fd = syscall_handler(&mut s, 2, 0x40_2000, 0, 0, 0, 0, 0, &mut path);
    assert_eq!(fd, 3);
    let mut data = vec![9u8; 8];
    assert_eq!(syscall_handler(&mut s, 0, 3, 0x40_3000, 8, 0, 0, 0, &mut data), 8);
    assert_eq!(data, vec![0u8; 8]);
    assert_eq!(syscall_handler(&mut s, 3, 3, 0, 0, 0, 0, 0, &mut data), 0);
    assert_eq!(syscall_handler(&mut s, 3, 3, 0, 0, 0, 0, 0, &mut data), EBADF);
    let mut bad = b"/dev/none\0".to_vec();
    assert_eq!(syscall_handler(&mut s, 2, 0x40_2000, 0, 0, 0, 0, 0, &mut bad), ENOENT);
}

#[test]
fn other_calls() {
    let mut s = Scheduler::new();
    let mut none = Vec::new();
    assert_eq!(syscall_handler(&mut s, 500, 0, 0, 0, 0, 0, 0, &mut none), ENOSYS);
    assert_eq!(syscall_handler(&mut s, 24, 0, 0, 0, 0, 0, 0, &mut none), 0);
    assert_eq!(syscall_handler(&mut s, 39, 0, 0, 0, 0, 0, 0, &mut none), 0);
    assert_eq!(syscall_handler(&mut s, 3, 1, 0, 0, 0, 0, 0, &mut none), ESRCH);
}
