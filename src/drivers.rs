pub mod dev_null;
pub mod dev_zero;
pub mod framebuffer_console;
pub mod serial_console;

use vstd::prelude::*;
use crate::process::file::{Device, DeviceKind, kind_of, output_of};

verus! {

/// "/dev/null"
pub open spec fn path_null() -> Seq<u8> {
    seq![47u8, 100u8, 101u8, 118u8, 47u8, 110u8, 117u8, 108u8, 108u8]
}

/// "/dev/zero"
pub open spec fn path_zero() -> Seq<u8> {
    seq![47u8, 100u8, 101u8, 118u8, 47u8, 122u8, 101u8, 114u8, 111u8]
}

/// "/dev/console"
pub open spec fn path_console() -> Seq<u8> {
    seq![47u8, 100u8, 101u8, 118u8, 47u8, 99u8, 111u8, 110u8, 115u8, 111u8, 108u8, 101u8]
}

/// "/dev/fb"
pub open spec fn path_fb() -> Seq<u8> {
    seq![47u8, 100u8, 101u8, 118u8, 47u8, 102u8, 98u8]
}

/// The device registered at `path`.
pub open spec fn device_at(path: Seq<u8>) -> Option<DeviceKind> {
    if path == path_null() {
        Some(DeviceKind::Null)
    } else if path == path_zero() {
        Some(DeviceKind::Zero)
    } else if path == path_console() {
        Some(DeviceKind::Console)
    } else if path == path_fb() {
        Some(DeviceKind::Fb)
    } else {
        None
    }
}

/// One registry entry: a path and the kind of device it opens.
pub struct DeviceEntry {
    pub path: Vec<u8>,
    pub kind: DeviceKind,
}

/// The device registry: (path, device) pairs; adding a driver is one line.
pub fn devices() -> (r: Vec<DeviceEntry>)
    ensures
        r@.len() == 4,
        r@[0].path@ == path_null() && r@[0].kind == DeviceKind::Null,
        r@[1].path@ == path_zero() && r@[1].kind == DeviceKind::Zero,
        r@[2].path@ == path_console() && r@[2].kind == DeviceKind::Console,
        r@[3].path@ == path_fb() && r@[3].kind == DeviceKind::Fb,
{
    let mut r: Vec<DeviceEntry> = Vec::new();
    let p0 = vec![47u8, 100u8, 101u8, 118u8, 47u8, 110u8, 117u8, 108u8, 108u8];
    assert(p0@ =~= path_null());
    r.push(DeviceEntry { path: p0, kind: DeviceKind::Null });
    let p1 = vec![47u8, 100u8, 101u8, 118u8, 47u8, 122u8, 101u8, 114u8, 111u8];
    assert(p1@ =~= path_zero());
    r.push(DeviceEntry { path: p1, kind: DeviceKind::Zero });
    let p2 = vec![47u8, 100u8, 101u8, 118u8, 47u8, 99u8, 111u8, 110u8, 115u8, 111u8, 108u8, 101u8];
    assert(p2@ =~= path_console());
    r.push(DeviceEntry { path: p2, kind: DeviceKind::Console });
    let p3 = vec![47u8, 100u8, 101u8, 118u8, 47u8, 102u8, 98u8];
    assert(p3@ =~= path_fb());
    r.push(DeviceEntry { path: p3, kind: DeviceKind::Fb });
    r
}

/// Are the two byte strings equal?
pub fn bytes_equal(a: &[u8], b: &[u8]) -> (r: bool)
    ensures
        r == (a@ == b@),
{
    if a.len() != b.len() {
        return false;
    }
    let mut i: usize = 0;
    while i < a.len()
        invariant
            i <= a@.len(),
            a@.len() == b@.len(),
            forall|j: int| 0 <= j < i ==> a@[j] == b@[j],
        decreases a@.len() - i,
    {
        if a[i] != b[i] {
            return false;
        }
        i = i + 1;
    }
    assert(a@ =~= b@);
    true
}

/// A new device of `kind`, made by its driver.
pub fn open_kind(kind: DeviceKind) -> (r: Device)
    ensures
        kind_of(r) == kind,
        output_of(r).len() == 0,
{
    match kind {
        DeviceKind::Null => dev_null::open(),
        DeviceKind::Zero => dev_zero::open(),
        DeviceKind::Console => serial_console::open(),
        DeviceKind::Fb => framebuffer_console::open(),
    }
}

/// Opens the device registered at `path`: a fresh one, or `None` when no
/// driver matches.
pub fn open_device(path: &[u8]) -> (r: Option<Device>)
    ensures
        r.is_some() <==> device_at(path@).is_some(),
        r.is_some() ==> kind_of(r.unwrap()) == device_at(path@).unwrap() && output_of(r.unwrap()).len() == 0,
{
    let table = devices();
    let mut i: usize = 0;
    while i < table.len()
        invariant
            i <= table@.len(),
            table@.len() == 4,
            table@[0].path@ == path_null() && table@[0].kind == DeviceKind::Null,
            table@[1].path@ == path_zero() && table@[1].kind == DeviceKind::Zero,
            table@[2].path@ == path_console() && table@[2].kind == DeviceKind::Console,
            table@[3].path@ == path_fb() && table@[3].kind == DeviceKind::Fb,
            forall|j: int| 0 <= j < i ==> path@ != (#[trigger] table@[j]).path@,
        decreases table@.len() - i,
    {
        if bytes_equal(table[i].path.as_slice(), path) {
            proof {
                assert(path@ == table@[i as int].path@);
                assert(path_null() != path_zero()) by { assert(path_null()[5] != path_zero()[5]); }
                assert(path_null() != path_console()) by { assert(path_null().len() != path_console().len()); }
                assert(path_null() != path_fb()) by { assert(path_null().len() != path_fb().len()); }
                assert(path_zero() != path_console()) by { assert(path_zero().len() != path_console().len()); }
                assert(path_zero() != path_fb()) by { assert(path_zero().len() != path_fb().len()); }
                assert(path_console() != path_fb()) by { assert(path_console().len() != path_fb().len()); }
            }
            return Some(open_kind(table[i].kind));
        }
        i = i + 1;
    }
    proof {
        assert(path@ != table@[0].path@);
        assert(path@ != table@[1].path@);
        assert(path@ != table@[2].path@);
        assert(path@ != table@[3].path@);
    }
    None
}

} // verus!
