//! Exit statuses the kernel's test harness reports to the emulator it
//! runs under. Writing the status to the emulator's exit port is I/O and
//! lives outside this library; the codes themselves are fixed here.

use vstd::prelude::*;

verus! {

/// Exit status of a kernel test run.
#[derive(Clone, Copy, Debug, PartialEq, Eq, Structural)]
pub enum QemuExitCode {
    Success,
    Fail,
}

impl QemuExitCode {
    /// The value written to the emulator's exit port: the two statuses
    /// map to distinct, fixed codes.
    pub fn code(self) -> (r: u32)
        ensures
            self is Success ==> r == 0x10,
            self is Fail ==> r == 0x11,
    {
        match self {
            QemuExitCode::Success => 0x10,
            QemuExitCode::Fail => 0x11,
        }
    }
}

} // verus!
