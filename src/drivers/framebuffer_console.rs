use vstd::prelude::*;
use crate::process::file::{Device, DeviceKind, FramebufferConsole, kind_of, output_of};

verus! {

/// A new handle on this device.
pub fn open() -> (r: Device)
    ensures
        kind_of(r) == DeviceKind::Fb,
        output_of(r).len() == 0,
{
    Device::Fb(FramebufferConsole::new())
}

} // verus!
