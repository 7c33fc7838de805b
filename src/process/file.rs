use vstd::prelude::*;

verus! {

/// Capacity of a process's descriptor table.
pub const MAX_FILES: usize = 16;

/// Errors of file operations.
#[derive(Clone, Copy, Debug, PartialEq, Eq, Structural)]
pub enum FileError {
    BadFileDescriptor,
    InvalidArgument,
    IOError,
    NotSupported,
    EndOfFile,
}

/// What an open file can do: read into a buffer, write from one, close.
pub trait FileHandle {
    /// Reads at most `buf.len()` bytes into `buf`; the count read.
    fn read(&mut self, buf: &mut Vec<u8>) -> (r: Result<usize, FileError>)
        ensures
            final(buf)@.len() == old(buf)@.len(),
            r.is_ok() ==> r.unwrap() <= old(buf)@.len();

    /// Writes the bytes of `buf`; the count written.
    fn write(&mut self, buf: &Vec<u8>) -> (r: Result<usize, FileError>)
        ensures
            r.is_ok() ==> r.unwrap() <= buf@.len();

    /// Releases the file.
    fn close(&mut self) -> (r: Result<(), FileError>);

    /// A short name, for listings.
    fn name(&self) -> &'static str;
}

/// Discards writes; reads see end of file at once.
#[derive(Clone, Copy, Debug, PartialEq, Eq, Structural)]
pub struct DevNull;

/// Reads give zeros without end; writes are discarded.
#[derive(Clone, Copy, Debug, PartialEq, Eq, Structural)]
pub struct DevZero;

/// The serial console (COM1): what is written is queued in `sent` for the
/// port; reading is not supported.
#[derive(Debug)]
pub struct SerialConsole {
    pub sent: Vec<u8>,
}

/// Text console on the framebuffer: written text is queued in `pending`
/// for drawing at column `x`, row `y`; reading is not supported.
#[derive(Debug)]
pub struct FramebufferConsole {
    pub x: usize,
    pub y: usize,
    pub pending: Vec<u8>,
}

impl SerialConsole {
    /// A console with nothing queued.
    pub fn new() -> (r: Self)
        ensures
            r.sent@.len() == 0,
    {
        SerialConsole { sent: Vec::new() }
    }
}

impl FramebufferConsole {
    /// A console whose first line goes at (10, 100).
    pub fn new() -> (r: Self)
        ensures
            r.x == 10,
            r.y == 100,
            r.pending@.len() == 0,
    {
        FramebufferConsole { x: 10, y: 100, pending: Vec::new() }
    }
}

/// A copy of `src`.
fn copy_bytes(src: &Vec<u8>) -> (r: Vec<u8>)
    ensures
        r@ == src@,
{
    let mut r: Vec<u8> = Vec::new();
    append_bytes(&mut r, src);
    proof {
        assert(r@ =~= src@);
    }
    r
}

/// Appends the bytes of `src` to `dst`.
fn append_bytes(dst: &mut Vec<u8>, src: &Vec<u8>)
    ensures
        final(dst)@ == old(dst)@ + src@,
{
    let mut i: usize = 0;
    while i < src.len()
        invariant
            i <= src@.len(),
            dst@ == old(dst)@ + src@.subrange(0, i as int),
        decreases src@.len() - i,
    {
        dst.push(src[i]);
        i = i + 1;
        proof {
            assert(src@.subrange(0, i as int) =~= src@.subrange(0, i - 1).push(src@[i - 1]));
            assert(dst@ =~= old(dst)@ + src@.subrange(0, i as int));
        }
    }
    proof {
        assert(src@.subrange(0, src@.len() as int) =~= src@);
    }
}

impl FileHandle for DevNull {
    fn read(&mut self, buf: &mut Vec<u8>) -> (r: Result<usize, FileError>) {
        Ok(0)
    }

    fn write(&mut self, buf: &Vec<u8>) -> (r: Result<usize, FileError>) {
        Ok(buf.len())
    }

    fn close(&mut self) -> (r: Result<(), FileError>) {
        Ok(())
    }

    fn name(&self) -> &'static str {
        "/dev/null"
    }
}

impl FileHandle for DevZero {
    fn read(&mut self, buf: &mut Vec<u8>) -> (r: Result<usize, FileError>) {
        fill_zero(buf);
        Ok(buf.len())
    }

    fn write(&mut self, buf: &Vec<u8>) -> (r: Result<usize, FileError>) {
        Ok(buf.len())
    }

    fn close(&mut self) -> (r: Result<(), FileError>) {
        Ok(())
    }

    fn name(&self) -> &'static str {
        "/dev/zero"
    }
}

impl FileHandle for SerialConsole {
    fn read(&mut self, buf: &mut Vec<u8>) -> (r: Result<usize, FileError>) {
        Err(FileError::NotSupported)
    }

    fn write(&mut self, buf: &Vec<u8>) -> (r: Result<usize, FileError>) {
        append_bytes(&mut self.sent, buf);
        Ok(buf.len())
    }

    fn close(&mut self) -> (r: Result<(), FileError>) {
        Ok(())
    }

    fn name(&self) -> &'static str {
        "serial"
    }
}

impl FileHandle for FramebufferConsole {
    fn read(&mut self, buf: &mut Vec<u8>) -> (r: Result<usize, FileError>) {
        Err(FileError::NotSupported)
    }

    fn write(&mut self, buf: &Vec<u8>) -> (r: Result<usize, FileError>) {
        append_bytes(&mut self.pending, buf);
        Ok(buf.len())
    }

    fn close(&mut self) -> (r: Result<(), FileError>) {
        Ok(())
    }

    fn name(&self) -> &'static str {
        "fb"
    }
}

/// Overwrites every byte of `buf` with zero.
fn fill_zero(buf: &mut Vec<u8>)
    ensures
        final(buf)@.len() == old(buf)@.len(),
        forall|i: int| 0 <= i < final(buf)@.len() ==> final(buf)@[i] == 0,
{
    let mut i: usize = 0;
    while i < buf.len()
        invariant
            i <= buf@.len(),
            buf@.len() == old(buf)@.len(),
            forall|j: int| 0 <= j < i ==> buf@[j] == 0,
        decreases buf@.len() - i,
    {
        buf.set(i, 0);
        i = i + 1;
    }
}

/// The devices a descriptor can refer to. The set is closed: a descriptor
/// holds one of these variants, not a boxed trait object, so adding a driver
/// means a variant here, its arms in the methods below, and its line in the
/// registry of `drivers`.
#[derive(Debug)]
pub enum Device {
    Null(DevNull),
    Zero(DevZero),
    Console(SerialConsole),
    Fb(FramebufferConsole),
}

/// The device kinds, without their state.
#[derive(Clone, Copy, Debug, PartialEq, Eq, Structural)]
pub enum DeviceKind {
    Null,
    Zero,
    Console,
    Fb,
}

pub open spec fn kind_of(d: Device) -> DeviceKind {
    match d {
        Device::Null(_) => DeviceKind::Null,
        Device::Zero(_) => DeviceKind::Zero,
        Device::Console(_) => DeviceKind::Console,
        Device::Fb(_) => DeviceKind::Fb,
    }
}

/// Bytes a device has queued for output (the console's and the framebuffer's).
pub open spec fn output_of(d: Device) -> Seq<u8> {
    match d {
        Device::Console(c) => c.sent@,
        Device::Fb(f) => f.pending@,
        _ => Seq::empty(),
    }
}

impl Device {
    pub fn kind(&self) -> (r: DeviceKind)
        ensures
            r == kind_of(*self),
    {
        match self {
            Device::Null(_) => DeviceKind::Null,
            Device::Zero(_) => DeviceKind::Zero,
            Device::Console(_) => DeviceKind::Console,
            Device::Fb(_) => DeviceKind::Fb,
        }
    }

    /// Reads into `buf`: nothing from /dev/null, zeros filling `buf` from
    /// /dev/zero; the consoles cannot be read.
    pub fn read(&mut self, buf: &mut Vec<u8>) -> (r: Result<usize, FileError>)
        ensures
            kind_of(*final(self)) == kind_of(*old(self)),
            output_of(*final(self)) == output_of(*old(self)),
            final(buf)@.len() == old(buf)@.len(),
            kind_of(*old(self)) == DeviceKind::Null ==> r == Ok::<usize, FileError>(0),
            kind_of(*old(self)) == DeviceKind::Zero ==> r == Ok::<usize, FileError>(old(buf)@.len() as usize)
                && forall|i: int| 0 <= i < final(buf)@.len() ==> final(buf)@[i] == 0,
            kind_of(*old(self)) == DeviceKind::Console || kind_of(*old(self)) == DeviceKind::Fb
                ==> r == Err::<usize, FileError>(FileError::NotSupported),
    {
        match self {
            Device::Null(_) => Ok(0),
            Device::Zero(_) => {
                fill_zero(buf);
                Ok(buf.len())
            },
            Device::Console(_) => Err(FileError::NotSupported),
            Device::Fb(_) => Err(FileError::NotSupported),
        }
    }

    /// Writes `buf`: every device takes all of it; the consoles queue it.
    pub fn write(&mut self, buf: &Vec<u8>) -> (r: Result<usize, FileError>)
        ensures
            kind_of(*final(self)) == kind_of(*old(self)),
            r == Ok::<usize, FileError>(buf@.len() as usize),
            (kind_of(*old(self)) == DeviceKind::Console || kind_of(*old(self)) == DeviceKind::Fb)
                ==> output_of(*final(self)) == output_of(*old(self)) + buf@,
            (kind_of(*old(self)) == DeviceKind::Null || kind_of(*old(self)) == DeviceKind::Zero)
                ==> output_of(*final(self)) == output_of(*old(self)),
    {
        match self {
            Device::Null(_) => Ok(buf.len()),
            Device::Zero(_) => Ok(buf.len()),
            Device::Console(c) => {
                append_bytes(&mut c.sent, buf);
                Ok(buf.len())
            },
            Device::Fb(f) => {
                append_bytes(&mut f.pending, buf);
                Ok(buf.len())
            },
        }
    }

    /// Closing a device always succeeds.
    pub fn close(&mut self) -> (r: Result<(), FileError>)
        ensures
            r.is_ok(),
    {
        Ok(())
    }

    /// The device's name.
    pub fn name(&self) -> (r: &'static str)
        ensures
            kind_of(*self) == DeviceKind::Null ==> r@ == "/dev/null"@,
            kind_of(*self) == DeviceKind::Zero ==> r@ == "/dev/zero"@,
            kind_of(*self) == DeviceKind::Console ==> r@ == "serial"@,
            kind_of(*self) == DeviceKind::Fb ==> r@ == "fb"@,
    {
        match self {
            Device::Null(_) => "/dev/null",
            Device::Zero(_) => "/dev/zero",
            Device::Console(_) => "serial",
            Device::Fb(_) => "fb",
        }
    }

    /// Takes the queued output, leaving none.
    pub fn take_output(&mut self) -> (r: Vec<u8>)
        ensures
            r@ == output_of(*old(self)),
            output_of(*final(self)).len() == 0,
            kind_of(*final(self)) == kind_of(*old(self)),
    {
        match self {
            Device::Console(c) => {
                let out = copy_bytes(&c.sent);
                c.sent = Vec::new();
                out
            },
            Device::Fb(f) => {
                let out = copy_bytes(&f.pending);
                f.pending = Vec::new();
                out
            },
            _ => Vec::new(),
        }
    }
}

/// The open files of a process: sixteen optional devices.
pub struct FileDescriptorTable {
    files: Vec<Option<Device>>,
}

impl FileDescriptorTable {
    pub closed spec fn slots(&self) -> Seq<Option<Device>> {
        self.files@
    }

    pub open spec fn wf(&self) -> bool {
        self.slots().len() == MAX_FILES
    }

    /// Is descriptor `fd` open?
    pub open spec fn is_open(&self, fd: int) -> bool {
        0 <= fd < MAX_FILES && self.slots()[fd].is_some()
    }

    /// A table with no open descriptor.
    pub fn new() -> (r: Self)
        ensures
            r.wf(),
            forall|i: int| 0 <= i < MAX_FILES ==> !r.is_open(i),
    {
        let mut files: Vec<Option<Device>> = Vec::new();
        let mut i: usize = 0;
        while i < MAX_FILES
            invariant
                i <= MAX_FILES,
                files@.len() == i,
                forall|j: int| 0 <= j < i ==> (#[trigger] files@[j]).is_none(),
            decreases MAX_FILES - i,
        {
            files.push(None);
            i = i + 1;
        }
        FileDescriptorTable { files }
    }

    /// The table of a new process: 0 is /dev/null, 1 and 2 the serial console.
    pub fn new_with_stdio() -> (r: Self)
        ensures
            r.wf(),
            r.is_open(0) && kind_of(r.slots()[0].unwrap()) == DeviceKind::Null,
            r.is_open(1) && kind_of(r.slots()[1].unwrap()) == DeviceKind::Console
                && output_of(r.slots()[1].unwrap()).len() == 0,
            r.is_open(2) && kind_of(r.slots()[2].unwrap()) == DeviceKind::Console
                && output_of(r.slots()[2].unwrap()).len() == 0,
            forall|i: int| 3 <= i < MAX_FILES ==> !r.is_open(i),
    {
        let mut t = Self::new();
        let ghost t0 = t;
        t.files.set(0, Some(Device::Null(DevNull)));
        t.files.set(1, Some(Device::Console(SerialConsole::new())));
        t.files.set(2, Some(Device::Console(SerialConsole::new())));
        proof {
            assert forall|i: int| 3 <= i < MAX_FILES implies !t.is_open(i) by {
                assert(!t0.is_open(i));
                assert(t.slots()[i] == t0.slots()[i]);
            }
        }
        t
    }

    /// The device behind `fd`.
    pub fn get(&self, fd: usize) -> (r: Result<&Device, FileError>)
        requires
            self.wf(),
        ensures
            r.is_ok() <==> self.is_open(fd as int),
            r.is_ok() ==> *r.unwrap() == self.slots()[fd as int].unwrap(),
            r.is_err() ==> r == Err::<&Device, FileError>(FileError::BadFileDescriptor),
    {
        if fd >= MAX_FILES {
            return Err(FileError::BadFileDescriptor);
        }
        match &self.files[fd] {
            Some(d) => Ok(d),
            None => Err(FileError::BadFileDescriptor),
        }
    }

    /// Reads from `fd` into `buf`.
    pub fn read(&mut self, fd: usize, buf: &mut Vec<u8>) -> (r: Result<usize, FileError>)
        requires
            old(self).wf(),
        ensures
            final(self).wf(),
            final(buf)@.len() == old(buf)@.len(),
            !old(self).is_open(fd as int) ==> r == Err::<usize, FileError>(FileError::BadFileDescriptor)
                && final(self).slots() == old(self).slots(),
            old(self).is_open(fd as int) ==> ({
                let d = old(self).slots()[fd as int].unwrap();
                &&& final(self).is_open(fd as int)
                &&& kind_of(d) == DeviceKind::Null ==> r == Ok::<usize, FileError>(0)
                &&& kind_of(d) == DeviceKind::Zero ==> r == Ok::<usize, FileError>(old(buf)@.len() as usize)
                    && forall|i: int| 0 <= i < final(buf)@.len() ==> final(buf)@[i] == 0
                &&& (kind_of(d) == DeviceKind::Console || kind_of(d) == DeviceKind::Fb)
                    ==> r == Err::<usize, FileError>(FileError::NotSupported)
            }),
            forall|i: int| 0 <= i < MAX_FILES && i != fd ==> #[trigger] final(self).slots()[i] == old(self).slots()[i],
    {
        if fd >= MAX_FILES {
            return Err(FileError::BadFileDescriptor);
        }
        match self.files[fd].take() {
            None => {
                proof {
                    assert(self.slots() =~= old(self).slots());
                }
                Err(FileError::BadFileDescriptor)
            },
            Some(mut d) => {
                let r = d.read(buf);
                self.files.set(fd, Some(d));
                r
            },
        }
    }

    /// Writes `buf` to `fd`.
    pub fn write(&mut self, fd: usize, buf: &Vec<u8>) -> (r: Result<usize, FileError>)
        requires
            old(self).wf(),
        ensures
            final(self).wf(),
            !old(self).is_open(fd as int) ==> r == Err::<usize, FileError>(FileError::BadFileDescriptor)
                && final(self).slots() == old(self).slots(),
            old(self).is_open(fd as int) ==> ({
                let d = old(self).slots()[fd as int].unwrap();
                let e = final(self).slots()[fd as int].unwrap();
                &&& final(self).is_open(fd as int)
                &&& r == Ok::<usize, FileError>(buf@.len() as usize)
                &&& kind_of(e) == kind_of(d)
                &&& (kind_of(d) == DeviceKind::Console || kind_of(d) == DeviceKind::Fb)
                    ==> output_of(e) == output_of(d) + buf@
                &&& (kind_of(d) == DeviceKind::Null || kind_of(d) == DeviceKind::Zero)
                    ==> output_of(e) == output_of(d)
            }),
            forall|i: int| 0 <= i < MAX_FILES && i != fd ==> #[trigger] final(self).slots()[i] == old(self).slots()[i],
    {
        if fd >= MAX_FILES {
            return Err(FileError::BadFileDescriptor);
        }
        match self.files[fd].take() {
            None => {
                proof {
                    assert(self.slots() =~= old(self).slots());
                }
                Err(FileError::BadFileDescriptor)
            },
            Some(mut d) => {
                let r = d.write(buf);
                self.files.set(fd, Some(d));
                r
            },
        }
    }

    /// Puts `handle` at the lowest free descriptor and returns it; refused
    /// with `InvalidArgument` when all sixteen are open.
    pub fn allocate(&mut self, handle: Device) -> (r: Result<usize, FileError>)
        requires
            old(self).wf(),
        ensures
            final(self).wf(),
            r.is_err() <==> forall|i: int| 0 <= i < MAX_FILES ==> old(self).is_open(i),
            r.is_err() ==> r == Err::<usize, FileError>(FileError::InvalidArgument) && final(self).slots() == old(self).slots(),
            r.is_ok() ==> r.unwrap() < MAX_FILES && !old(self).is_open(r.unwrap() as int)
                && (forall|i: int| 0 <= i < r.unwrap() ==> old(self).is_open(i))
                && final(self).slots() == old(self).slots().update(r.unwrap() as int, Some(handle)),
    {
        let mut i: usize = 0;
        while i < MAX_FILES
            invariant
                i <= MAX_FILES,
                self.slots() == old(self).slots(),
                self.wf(),
                forall|j: int| 0 <= j < i ==> old(self).is_open(j),
            decreases MAX_FILES - i,
        {
            if self.files[i].is_none() {
                assert(!old(self).is_open(i as int));
                self.files.set(i, Some(handle));
                return Ok(i);
            }
            i = i + 1;
        }
        Err(FileError::InvalidArgument)
    }

    /// Closes `fd`; refused with `BadFileDescriptor` when it is out of range
    /// or not open.
    pub fn close(&mut self, fd: usize) -> (r: Result<(), FileError>)
        requires
            old(self).wf(),
        ensures
            final(self).wf(),
            r.is_ok() <==> old(self).is_open(fd as int),
            r.is_err() ==> r == Err::<(), FileError>(FileError::BadFileDescriptor) && final(self).slots() == old(self).slots(),
            r.is_ok() ==> final(self).slots() == old(self).slots().update(fd as int, None),
    {
        if fd >= MAX_FILES {
            return Err(FileError::BadFileDescriptor);
        }
        match self.files[fd].take() {
            None => {
                proof {
                    assert(self.slots() =~= old(self).slots());
                }
                Err(FileError::BadFileDescriptor)
            },
            Some(mut d) => {
                let _ = d.close();
                proof {
                    assert(self.slots() =~= old(self).slots().update(fd as int, None));
                }
                Ok(())
            },
        }
    }

    /// Takes what the device behind `fd` has queued for output.
    pub fn take_output(&mut self, fd: usize) -> (r: Vec<u8>)
        requires
            old(self).wf(),
        ensures
            final(self).wf(),
            old(self).is_open(fd as int) ==> r@ == output_of(old(self).slots()[fd as int].unwrap())
                && final(self).is_open(fd as int),
            !old(self).is_open(fd as int) ==> r@.len() == 0 && final(self).slots() == old(self).slots(),
    {
        if fd >= MAX_FILES {
            return Vec::new();
        }
        match self.files[fd].take() {
            None => {
                proof {
                    assert(self.slots() =~= old(self).slots());
                }
                Vec::new()
            },
            Some(mut d) => {
                let out = d.take_output();
                self.files.set(fd, Some(d));
                out
            },
        }
    }

    /// The open descriptors with their device names, lowest first.
    pub fn debug_list(&self) -> (r: Vec<(usize, &'static str)>)
        requires
            self.wf(),
        ensures
            forall|k: int| 0 <= k < r@.len() ==> self.is_open((#[trigger] r@[k]).0 as int),
            forall|a: int, b: int| 0 <= a < b < r@.len() ==> r@[a].0 < r@[b].0,
    {
        let mut r: Vec<(usize, &'static str)> = Vec::new();
        let mut i: usize = 0;
        while i < MAX_FILES
            invariant
                i <= MAX_FILES,
                self.wf(),
                forall|k: int| 0 <= k < r@.len() ==> self.is_open((#[trigger] r@[k]).0 as int) && r@[k].0 < i,
                forall|a: int, b: int| 0 <= a < b < r@.len() ==> r@[a].0 < r@[b].0,
            decreases MAX_FILES - i,
        {
            match &self.files[i] {
                Some(d) => {
                    r.push((i, d.name()));
                },
                None => {},
            }
            i = i + 1;
        }
        r
    }
}

} // verus!
