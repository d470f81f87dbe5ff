//! Values crossing the trap boundary: hardware interrupt vector numbers and
//! the syscall command encoding. The raw handlers that push and pop machine
//! state live outside this crate; they exchange these plain values with the
//! kernel core.

use vstd::prelude::*;

verus! {

/// Vector base the first interrupt controller is remapped to.
pub const PIC_1_OFFSET: u8 = 32;

/// Vector base of the second, chained controller.
pub const PIC_2_OFFSET: u8 = PIC_1_OFFSET + 8;

/// Hardware interrupts the kernel handles.
#[derive(Clone, Copy, Debug, PartialEq, Eq, Structural)]
pub enum InterruptIndex {
    Timer,
    Keyboard,
}

impl InterruptIndex {
    /// The interrupt vector number: the timer sits on the first remapped
    /// line, the keyboard one above it.
    pub fn as_u8(self) -> (r: u8)
        ensures
            self == InterruptIndex::Timer ==> r == PIC_1_OFFSET,
            self == InterruptIndex::Keyboard ==> r == PIC_1_OFFSET + 1,
    {
        match self {
            InterruptIndex::Timer => PIC_1_OFFSET,
            InterruptIndex::Keyboard => PIC_1_OFFSET + 1,
        }
    }
}

/// Commands a process may issue through the syscall gate.
#[derive(Clone, Copy, Debug, PartialEq, Eq, Structural)]
pub enum SyscallCommand {
    Yield,
    Terminate,
}

impl SyscallCommand {
    /// The wire encoding passed in the syscall register.
    pub fn as_u64(self) -> (r: u64)
        ensures
            self == SyscallCommand::Yield ==> r == 10,
            self == SyscallCommand::Terminate ==> r == 11,
    {
        match self {
            SyscallCommand::Yield => 10,
            SyscallCommand::Terminate => 11,
        }
    }

    /// Decodes a syscall number; anything outside the known set is rejected.
    pub fn from_u64(n: u64) -> (r: Option<SyscallCommand>)
        ensures
            n == 10 ==> r == Some(SyscallCommand::Yield),
            n == 11 ==> r == Some(SyscallCommand::Terminate),
            n != 10 && n != 11 ==> r is None,
    {
        if n == 10 {
            Some(SyscallCommand::Yield)
        } else if n == 11 {
            Some(SyscallCommand::Terminate)
        } else {
            None
        }
    }
}

} // verus!
