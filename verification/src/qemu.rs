//! The codes with which the kernel leaves the emulator.

use vstd::prelude::*;

verus! {

/// How a run under the emulator ended.
#[derive(Debug, Clone, Copy, PartialEq, Eq, Structural)]
pub enum QemuExitCode {
    /// Everything went well.
    Success,
    /// Something failed.
    Failed,
}

impl QemuExitCode {
    /// The value written to the emulator's exit port.
    pub open spec fn port_value(self) -> u32 {
        match self {
            QemuExitCode::Success => 0x10,
            QemuExitCode::Failed => 0x11,
        }
    }

    /// The value written to the emulator's exit port.
    pub fn code(self) -> (value: u32)
        ensures
            value == self.port_value(),
    {
        match self {
            QemuExitCode::Success => 0x10,
            QemuExitCode::Failed => 0x11,
        }
    }
}

} // verus!
