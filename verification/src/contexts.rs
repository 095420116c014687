//! The register state that is saved and restored when the processor moves
//! from one task to another.

use vstd::prelude::*;

verus! {

/// The flag that lets the processor take maskable interrupts.
pub const INTERRUPT_FLAG: u64 = 0x200;

/// Selector of the kernel's code segment.
pub const KERNEL_CODE_SELECTOR: u64 = 0x8;

/// Selector of the kernel's data segment.
pub const KERNEL_DATA_SELECTOR: u64 = 0x10;

/// Where a task goes on: its instruction pointer and its stack pointer.
#[derive(Clone, Copy, Debug, PartialEq, Eq, Structural)]
pub struct ControlContext {
    pub ip: u64,
    pub sp: u64,
}

/// The general-purpose registers.
#[derive(Clone, Copy, Debug, PartialEq, Eq, Structural)]
pub struct GeneralRegisters {
    pub rax: u64,
    pub rbx: u64,
    pub rcx: u64,
    pub rdx: u64,
    pub rsi: u64,
    pub rdi: u64,
    pub rbp: u64,
    pub r8: u64,
    pub r9: u64,
    pub r10: u64,
    pub r11: u64,
    pub r12: u64,
    pub r13: u64,
    pub r14: u64,
    pub r15: u64,
}

impl GeneralRegisters {
    /// Every register zero.
    pub fn empty() -> (result: GeneralRegisters)
        ensures
            result == (GeneralRegisters {
                rax: 0,
                rbx: 0,
                rcx: 0,
                rdx: 0,
                rsi: 0,
                rdi: 0,
                rbp: 0,
                r8: 0,
                r9: 0,
                r10: 0,
                r11: 0,
                r12: 0,
                r13: 0,
                r14: 0,
                r15: 0,
            }),
    {
        GeneralRegisters {
            rax: 0,
            rbx: 0,
            rcx: 0,
            rdx: 0,
            rsi: 0,
            rdi: 0,
            rbp: 0,
            r8: 0,
            r9: 0,
            r10: 0,
            r11: 0,
            r12: 0,
            r13: 0,
            r14: 0,
            r15: 0,
        }
    }
}

/// The segment selectors and the flags register.
#[derive(Clone, Copy, Debug, PartialEq, Eq, Structural)]
pub struct SpecialRegisters {
    pub cs: u64,
    pub ss: u64,
    pub flags: u64,
}

impl SpecialRegisters {
    /// The kernel's segments, with the given flags.
    pub fn with_kernel_segments(flags: u64) -> (result: SpecialRegisters)
        ensures
            result == (SpecialRegisters {
                cs: KERNEL_CODE_SELECTOR,
                ss: KERNEL_DATA_SELECTOR,
                flags,
            }),
    {
        SpecialRegisters { cs: KERNEL_CODE_SELECTOR, ss: KERNEL_DATA_SELECTOR, flags }
    }
}

/// The register state of a task.
pub type ArchContext = (GeneralRegisters, SpecialRegisters);

/// The register state in which a kernel task starts: every general register
/// zero, the kernel's segments, and interrupts enabled.
pub fn default_arch_context() -> (result: ArchContext)
    ensures
        result.0.rax == 0 && result.0.rbx == 0 && result.0.rcx == 0 && result.0.rdx == 0,
        result.0.rsi == 0 && result.0.rdi == 0 && result.0.rbp == 0 && result.0.r8 == 0,
        result.0.r9 == 0 && result.0.r10 == 0 && result.0.r11 == 0 && result.0.r12 == 0,
        result.0.r13 == 0 && result.0.r14 == 0 && result.0.r15 == 0,
        result.1 == (SpecialRegisters {
            cs: KERNEL_CODE_SELECTOR,
            ss: KERNEL_DATA_SELECTOR,
            flags: INTERRUPT_FLAG,
        }),
{
    (GeneralRegisters::empty(), SpecialRegisters::with_kernel_segments(INTERRUPT_FLAG))
}

} // verus!
