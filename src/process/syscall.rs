use vstd::prelude::*;
use crate::drivers::{open_device, device_at};
use crate::process::file::{FileError, DeviceKind, kind_of, output_of};
use crate::process::scheduler::{Scheduler, ProcessState, with_state};

verus! {

pub const EPERM: i64 = -1;
pub const ENOENT: i64 = -2;
pub const ESRCH: i64 = -3;
pub const EIO: i64 = -5;
pub const EBADF: i64 = -9;
pub const ENOMEM: i64 = -12;
pub const EFAULT: i64 = -14;
pub const EINVAL: i64 = -22;
pub const ENOSYS: i64 = -38;

/// First address above user space.
pub const USER_SPACE_MAX: u64 = 0x0000_8000_0000_0000;
/// Longest path `open` reads.
pub const MAX_PATH: usize = 256;

/// The supported calls, numbered as on Linux x86_64.
#[derive(Clone, Copy, Debug, PartialEq, Eq, Structural)]
pub enum SyscallNumber {
    Read,
    Write,
    Open,
    Close,
    Yield,
    GetPid,
    Exit,
}

pub open spec fn syscall_of(n: u64) -> Option<SyscallNumber> {
    if n == 0 { Some(SyscallNumber::Read) }
    else if n == 1 { Some(SyscallNumber::Write) }
    else if n == 2 { Some(SyscallNumber::Open) }
    else if n == 3 { Some(SyscallNumber::Close) }
    else if n == 24 { Some(SyscallNumber::Yield) }
    else if n == 39 { Some(SyscallNumber::GetPid) }
    else if n == 60 { Some(SyscallNumber::Exit) }
    else { None }
}

impl SyscallNumber {
    /// The call with number `n` (0 read, 1 write, 2 open, 3 close, 24 yield,
    /// 39 getpid, 60 exit).
    pub fn from_u64(n: u64) -> (r: Option<Self>)
        ensures
            r == syscall_of(n),
    {
        match n {
            0 => Some(SyscallNumber::Read),
            1 => Some(SyscallNumber::Write),
            2 => Some(SyscallNumber::Open),
            3 => Some(SyscallNumber::Close),
            24 => Some(SyscallNumber::Yield),
            39 => Some(SyscallNumber::GetPid),
            60 => Some(SyscallNumber::Exit),
            _ => None,
        }
    }
}

/// Is [addr, addr + size) a user buffer: non-null, inside user space,
/// without overflow?
pub open spec fn user_range_ok(addr: u64, size: nat) -> bool {
    addr != 0 && addr < USER_SPACE_MAX && addr + size <= USER_SPACE_MAX
}

/// Checks a user buffer before it is touched; `Err(EFAULT)` when it is null,
/// overflows, or reaches into kernel space.
pub fn validate_user_buffer(addr: u64, size: usize) -> (r: Result<(), i64>)
    ensures
        r.is_ok() <==> user_range_ok(addr, size as nat),
        r.is_err() ==> r == Err::<(), i64>(EFAULT),
{
    if addr == 0 {
        return Err(EFAULT);
    }
    let end = match addr.checked_add(size as u64) {
        Some(e) => e,
        None => return Err(EFAULT),
    };
    if addr >= USER_SPACE_MAX || end > USER_SPACE_MAX {
        return Err(EFAULT);
    }
    Ok(())
}

/// A descriptor argument: the low 32 bits as a signed int, -1 if negative.
pub open spec fn fd_index(arg: u64) -> int {
    let x = arg as i32;
    if x < 0 { -1 } else { x as int }
}

fn fd_from_arg(arg: u64) -> (r: Option<usize>)
    ensures
        fd_index(arg) < 0 ==> r.is_none(),
        fd_index(arg) >= 0 ==> r == Some(fd_index(arg) as usize),
{
    let x = arg as i32;
    if x < 0 { None } else { Some(x as usize) }
}

/// What `sys_write` returns and does.
pub open spec fn write_post(s0: Scheduler, s1: Scheduler, fd_arg: u64, buf: u64, count: usize, data: Seq<u8>, r: i64) -> bool {
    &&& !user_range_ok(buf, count as nat) || data.len() != count ==> r == EFAULT
    &&& user_range_ok(buf, count as nat) && data.len() == count ==> ({
            &&& s0.current().is_none() ==> r == ESRCH
            &&& s0.current().is_some() ==> ({
                let p = s0.current().unwrap();
                let p2 = s1.current().unwrap();
                let fd = fd_index(fd_arg);
                &&& s1.current().is_some() && p2.pid == p.pid
                &&& !p.files.is_open(fd) ==> r == EBADF
                &&& p.files.is_open(fd) ==> r == count as i64 && count as i64 >= 0
                    && ((kind_of(p.files.slots()[fd].unwrap()) == DeviceKind::Console
                        || kind_of(p.files.slots()[fd].unwrap()) == DeviceKind::Fb)
                        ==> output_of(p2.files.slots()[fd].unwrap()) == output_of(p.files.slots()[fd].unwrap()) + data)
            })
        })
}

/// What `sys_getpid` returns.
pub open spec fn getpid_post(s: Scheduler, r: i64) -> bool {
    &&& s.current().is_none() ==> r == 0
    &&& s.current().is_some() && s.current().unwrap().pid.0 <= i64::MAX ==> r == s.current().unwrap().pid.0
}

/// What `sys_read` returns and does.
pub open spec fn read_post(s0: Scheduler, s1: Scheduler, fd_arg: u64, buf: u64, count: usize, d0: Seq<u8>, d1: Seq<u8>, r: i64) -> bool {
    &&& !user_range_ok(buf, count as nat) || d0.len() != count ==> r == EFAULT
    &&& user_range_ok(buf, count as nat) && d0.len() == count ==> ({
            &&& s0.current().is_none() ==> r == ESRCH
            &&& s0.current().is_some() ==> ({
                let p = s0.current().unwrap();
                let fd = fd_index(fd_arg);
                &&& !p.files.is_open(fd) ==> r == EBADF
                &&& p.files.is_open(fd) ==> ({
                    let k = kind_of(p.files.slots()[fd].unwrap());
                    &&& k == DeviceKind::Null ==> r == 0
                    &&& k == DeviceKind::Zero ==> r == count as i64
                        && forall|i: int| 0 <= i < d1.len() ==> d1[i] == 0
                    &&& (k == DeviceKind::Console || k == DeviceKind::Fb) ==> r == EIO
                })
            })
        })
}

/// What `sys_open` returns and does.
pub open spec fn open_post(s0: Scheduler, s1: Scheduler, path_ptr: u64, data: Seq<u8>, r: i64) -> bool {
    &&& !user_range_ok(path_ptr, MAX_PATH as nat) ==> r == EFAULT
    &&& user_range_ok(path_ptr, MAX_PATH as nat) ==> ({
            &&& device_at(path_in(data)).is_none() ==> r == ENOENT
            &&& device_at(path_in(data)).is_some() && s0.current().is_none() ==> r == ESRCH
            &&& device_at(path_in(data)).is_some() && s0.current().is_some() ==> ({
                let p = s0.current().unwrap();
                let p2 = s1.current().unwrap();
                &&& (forall|i: int| 0 <= i < 16 ==> p.files.is_open(i)) ==> r == EINVAL
                &&& !(forall|i: int| 0 <= i < 16 ==> p.files.is_open(i)) ==> 0 <= r < 16
                    && !p.files.is_open(r as int)
                    && (forall|i: int| 0 <= i < r ==> p.files.is_open(i))
                    && p2.files.slots()[r as int].is_some()
                    && kind_of(p2.files.slots()[r as int].unwrap()) == device_at(path_in(data)).unwrap()
            })
        })
}

/// What `sys_close` returns and does.
pub open spec fn close_post(s0: Scheduler, s1: Scheduler, fd_arg: u64, r: i64) -> bool {
    &&& s0.current().is_none() ==> r == ESRCH
    &&& s0.current().is_some() ==> ({
            let p = s0.current().unwrap();
            let p2 = s1.current().unwrap();
            &&& !p.files.is_open(fd_index(fd_arg)) ==> r == EBADF
            &&& p.files.is_open(fd_index(fd_arg)) ==> r == 0 && !p2.files.is_open(fd_index(fd_arg))
        })
}

/// `write(fd, buf, count)`: `data` holds the `count` bytes at `buf`, read by
/// the caller once `buf` passed `validate_user_buffer`. Returns the count
/// written, or EFAULT (bad buffer, or `data` not `count` long), ESRCH (no
/// process), EBADF (descriptor not open).
pub fn sys_write(sched: &mut Scheduler, fd_arg: u64, buf: u64, count: usize, data: &Vec<u8>) -> (r: i64)
    requires
        old(sched).wf(),
    ensures
        final(sched).wf(),
        final(sched).queues() == old(sched).queues(),
        final(sched).waiting() == old(sched).waiting(),
        write_post(*old(sched), *final(sched), fd_arg, buf, count, data@, r),
{
    if validate_user_buffer(buf, count).is_err() || data.len() != count {
        return EFAULT;
    }
    let fd = match fd_from_arg(fd_arg) {
        Some(f) => f,
        None => {
            return match sched.current_pid() {
                None => ESRCH,
                Some(_) => EBADF,
            };
        },
    };
    match sched.file_write(fd, data) {
        None => ESRCH,
        Some(Ok(n)) => {
            assert(n < USER_SPACE_MAX);
            n as i64
        },
        Some(Err(FileError::BadFileDescriptor)) => EBADF,
        Some(Err(_)) => EIO,
    }
}

/// `read(fd, buf, count)`: fills `data` (the caller copies it to `buf`),
/// which must be `count` long. Returns the count read, or EFAULT, ESRCH,
/// EBADF, or EIO (the device cannot be read).
pub fn sys_read(sched: &mut Scheduler, fd_arg: u64, buf: u64, count: usize, data: &mut Vec<u8>) -> (r: i64)
    requires
        old(sched).wf(),
    ensures
        final(sched).wf(),
        final(sched).queues() == old(sched).queues(),
        final(data)@.len() == old(data)@.len(),
        read_post(*old(sched), *final(sched), fd_arg, buf, count, old(data)@, final(data)@, r),
{
    if validate_user_buffer(buf, count).is_err() || data.len() != count {
        return EFAULT;
    }
    let fd = match fd_from_arg(fd_arg) {
        Some(f) => f,
        None => {
            return match sched.current_pid() {
                None => ESRCH,
                Some(_) => EBADF,
            };
        },
    };
    match sched.file_read(fd, data) {
        None => ESRCH,
        Some(Ok(n)) => {
            assert(n < USER_SPACE_MAX);
            n as i64
        },
        Some(Err(FileError::BadFileDescriptor)) => EBADF,
        Some(Err(_)) => EIO,
    }
}

/// Index of the first NUL in s[i..n], or n.
pub open spec fn first_nul(s: Seq<u8>, i: int, n: int) -> int
    decreases n - i,
{
    if i >= n {
        n
    } else if s[i] == 0 {
        i
    } else {
        first_nul(s, i + 1, n)
    }
}

/// The path in `bytes`: up to the first NUL, at most 256 bytes.
pub open spec fn path_in(bytes: Seq<u8>) -> Seq<u8> {
    let n = if bytes.len() < MAX_PATH { bytes.len() as int } else { MAX_PATH as int };
    bytes.subrange(0, first_nul(bytes, 0, n))
}

fn path_len(bytes: &Vec<u8>) -> (r: usize)
    ensures
        r <= bytes@.len(),
        r <= MAX_PATH,
        bytes@.subrange(0, r as int) == path_in(bytes@),
{
    let n: usize = if bytes.len() < MAX_PATH { bytes.len() } else { MAX_PATH };
    let mut i: usize = 0;
    while i < n
        invariant
            i <= n,
            n <= bytes@.len(),
            n == (if bytes@.len() < MAX_PATH { bytes@.len() as int } else { MAX_PATH as int }),
            first_nul(bytes@, 0, n as int) == first_nul(bytes@, i as int, n as int),
        decreases n - i,
    {
        if bytes[i] == 0 {
            return i;
        }
        i = i + 1;
    }
    n
}

/// `open(path, flags)`: `data` holds the bytes at `path` (at most 256, read
/// once `path` passed validation). Returns the new descriptor, or EFAULT,
/// ENOENT (no such device), ESRCH, or EINVAL (descriptor table full).
pub fn sys_open(sched: &mut Scheduler, path_ptr: u64, data: &Vec<u8>) -> (r: i64)
    requires
        old(sched).wf(),
    ensures
        final(sched).wf(),
        final(sched).queues() == old(sched).queues(),
        open_post(*old(sched), *final(sched), path_ptr, data@, r),
{
    if validate_user_buffer(path_ptr, MAX_PATH).is_err() {
        return EFAULT;
    }
    let n = path_len(data);
    let dev = match open_device(&data.as_slice()[0..n]) {
        Some(d) => d,
        None => return ENOENT,
    };
    match sched.file_open(dev) {
        None => ESRCH,
        Some(Ok(fd)) => fd as i64,
        Some(Err(_)) => EINVAL,
    }
}

/// `close(fd)`: 0, or ESRCH (no process) or EBADF (not open).
pub fn sys_close(sched: &mut Scheduler, fd_arg: u64) -> (r: i64)
    requires
        old(sched).wf(),
    ensures
        final(sched).wf(),
        final(sched).queues() == old(sched).queues(),
        close_post(*old(sched), *final(sched), fd_arg, r),
{
    let fd = match fd_from_arg(fd_arg) {
        Some(f) => f,
        None => {
            return match sched.current_pid() {
                None => ESRCH,
                Some(_) => EBADF,
            };
        },
    };
    match sched.file_close(fd) {
        None => ESRCH,
        Some(Ok(())) => 0,
        Some(Err(_)) => EBADF,
    }
}

/// `yield()`: accepted, does nothing yet.
pub fn sys_yield() -> (r: i64)
    ensures
        r == 0,
{
    0
}

/// `getpid()`: the running process's id, 0 when none runs.
pub fn sys_getpid(sched: &Scheduler) -> (r: i64)
    ensures
        getpid_post(*sched, r),
{
    match sched.current_pid() {
        Some(p) => {
            if (p.0 as u64) <= (i64::MAX as u64) { p.0 as i64 } else { 0 }
        },
        None => 0,
    }
}

/// `exit(status)`: the running process becomes a Zombie in the wait queue
/// and its slice ends, so the next tick runs another process.
pub fn sys_exit(sched: &mut Scheduler, status: u64) -> (r: i64)
    requires
        old(sched).wf(),
    ensures
        final(sched).wf(),
        r == 0,
        final(sched).current().is_none(),
        final(sched).remaining() == 0,
        final(sched).queues() == old(sched).queues(),
        old(sched).current().is_some() ==> final(sched).waiting() == old(sched).waiting().push(
            with_state(old(sched).current().unwrap(), ProcessState::Zombie)),
{
    sched.exit_current();
    0
}

/// Dispatches a system call: number in `num`, arguments as on Linux.
/// `user` holds the bytes of the user buffer the call names (the `count`
/// bytes for write, the path for open), or receives them (read). Unknown
/// numbers give ENOSYS.
pub fn syscall_handler(sched: &mut Scheduler, num: u64, arg1: u64, arg2: u64, arg3: u64,
    _arg4: u64, _arg5: u64, _arg6: u64, user: &mut Vec<u8>) -> (r: i64)
    requires
        old(sched).wf(),
    ensures
        final(sched).wf(),
        syscall_of(num).is_none() ==> r == ENOSYS && *final(sched) == *old(sched),
        syscall_of(num) == Some(SyscallNumber::Yield) ==> r == 0,
        syscall_of(num) == Some(SyscallNumber::Exit) ==> r == 0 && final(sched).current().is_none()
            && final(sched).remaining() == 0 && final(sched).queues() == old(sched).queues()
            && (old(sched).current().is_some() ==> final(sched).waiting() == old(sched).waiting().push(
                with_state(old(sched).current().unwrap(), ProcessState::Zombie))),
        syscall_of(num) == Some(SyscallNumber::GetPid) ==> getpid_post(*old(sched), r),
        syscall_of(num) == Some(SyscallNumber::Read) ==> read_post(*old(sched), *final(sched), arg1, arg2,
            arg3 as usize, old(user)@, final(user)@, r),
        syscall_of(num) == Some(SyscallNumber::Write) ==> write_post(*old(sched), *final(sched), arg1, arg2,
            arg3 as usize, old(user)@, r),
        syscall_of(num) == Some(SyscallNumber::Open) ==> open_post(*old(sched), *final(sched), arg1, old(user)@, r),
        syscall_of(num) == Some(SyscallNumber::Close) ==> close_post(*old(sched), *final(sched), arg1, r),
{
    let call = match SyscallNumber::from_u64(num) {
        Some(c) => c,
        None => return ENOSYS,
    };
    match call {
        SyscallNumber::Read => sys_read(sched, arg1, arg2, arg3 as usize, user),
        SyscallNumber::Write => sys_write(sched, arg1, arg2, arg3 as usize, user),
        SyscallNumber::Open => sys_open(sched, arg1, user),
        SyscallNumber::Close => sys_close(sched, arg1),
        SyscallNumber::Yield => sys_yield(),
        SyscallNumber::GetPid => sys_getpid(sched),
        SyscallNumber::Exit => sys_exit(sched, arg1),
    }
}

} // verus!
