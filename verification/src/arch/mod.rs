//! Architecture support: what the exception handlers decide, the HPET timer arithmetic
//! and the processor features the kernel relies on.
use vstd::prelude::*;

pub mod hpet;
pub mod interrupts;

verus! {

/// The processor features that the kernel uses: the FS/GS base instructions and SSE.
#[derive(Debug, Clone, Copy, PartialEq, Eq, Structural)]
pub struct CpuFeatures {
    pub fsgsbase: bool,
    pub sse: bool,
}

/// The CR4 bit that enables the FS/GS base instructions.
pub const CR4_FSGSBASE: u64 = 0x1_0000;
/// The CR4 bits that enable FXSAVE/FXRSTOR and SIMD floating-point exceptions.
pub const CR4_OSFXSR_OSXMMEXCPT: u64 = 0x600;
/// The CR0 bit that makes the processor emulate the FPU.
pub const CR0_EM: u64 = 0x4;
/// The CR0 bits that monitor the coprocessor and report FPU errors natively.
pub const CR0_MP_NE: u64 = 0x22;

/// The CR4 value that enables the FS/GS base instructions, from `cr4`; `None` when the
/// processor lacks them, which the kernel cannot run without.
pub fn fsgsbase_cr4(features: CpuFeatures, cr4: u64) -> (r: Option<u64>)
    ensures
        r == (if features.fsgsbase { Some(cr4 | CR4_FSGSBASE) } else { None::<u64> }),
{
    if !features.fsgsbase {
        return None;
    }
    Some(cr4 | CR4_FSGSBASE)
}

/// The CR0 and CR4 values that enable the FPU and SSE, from `cr0` and `cr4`: emulation
/// off, coprocessor monitoring and native FPU errors on, FXSAVE and SIMD exceptions on.
/// `None` when the processor has no SSE: the registers are then left alone.
pub fn fpu_control(features: CpuFeatures, cr0: u64, cr4: u64) -> (r: Option<(u64, u64)>)
    ensures
        r == (if features.sse {
            Some(((cr0 & !CR0_EM) | CR0_MP_NE, cr4 | CR4_OSFXSR_OSXMMEXCPT))
        } else {
            None::<(u64, u64)>
        }),
{
    if !features.sse {
        return None;
    }
    Some(((cr0 & !CR0_EM) | CR0_MP_NE, cr4 | CR4_OSFXSR_OSXMMEXCPT))
}

} // verus!
