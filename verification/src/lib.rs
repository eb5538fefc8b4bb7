//! Verified core of a minimal Raspberry Pi 3 kernel: the line editor of the
//! console, colours and the framebuffer model, text rendering with an 8x8
//! font, and the bit-level protocols of the GPU mailbox and the PL011 UART.
use vstd::prelude::*;

pub mod console;
pub mod framebuffer;
pub mod graphics;
pub mod uart;

verus! {

/// The semihosting operation that ends the emulator (`SYS_EXIT`).
pub const SYS_EXIT: u64 = 0x18;

/// How the kernel's test run ended, as reported to QEMU.
#[derive(Debug, Clone, Copy, PartialEq, Eq, Structural)]
pub enum QemuExitCode {
    /// `ADP_Stopped_ApplicationExit`.
    Success,
    /// `ADP_Stopped_RunTimeErrorUnknown`.
    Failed,
}

impl QemuExitCode {
    pub open spec fn reason(self) -> u64 {
        match self {
            QemuExitCode::Success => 0x20026,
            QemuExitCode::Failed => 0x20027,
        }
    }

    /// The semihosting reason code of this outcome.
    pub fn code(&self) -> (c: u64)
        ensures
            c == self.reason(),
    {
        match self {
            QemuExitCode::Success => 0x20026,
            QemuExitCode::Failed => 0x20027,
        }
    }

    /// The parameter block of `SYS_EXIT`: the reason code, then a zero
    /// sub-code.
    pub fn exit_parameters(&self) -> (p: [u64; 2])
        ensures
            p@ == seq![self.reason(), 0u64],
    {
        let p = [self.code(), 0];
        assert(p@ =~= seq![self.reason(), 0u64]);
        p
    }
}

} // verus!
