//! What the processor reports about itself.

use vstd::prelude::*;

verus! {

/// The four registers that the processor fills for one query.
#[derive(Clone, Copy, Debug, PartialEq, Eq, Structural)]
pub struct CPUIDResult {
    eax: u32,
    ebx: u32,
    ecx: u32,
    edx: u32,
}

impl View for CPUIDResult {
    type V = (u32, u32, u32, u32);

    /// The registers in the order a, b, c, d.
    closed spec fn view(&self) -> (u32, u32, u32, u32) {
        (self.eax, self.ebx, self.ecx, self.edx)
    }
}

impl CPUIDResult {
    pub fn eax(&self) -> (result: u32)
        ensures
            result == self@.0,
    {
        self.eax
    }

    pub fn ebx(&self) -> (result: u32)
        ensures
            result == self@.1,
    {
        self.ebx
    }

    pub fn ecx(&self) -> (result: u32)
        ensures
            result == self@.2,
    {
        self.ecx
    }

    pub fn edx(&self) -> (result: u32)
        ensures
            result == self@.3,
    {
        self.edx
    }
}

/// The answer to the query for `leaf`, from the registers that the
/// processor filled. The query is answered if the first register holds at
/// least the number of the leaf.
pub fn cpuid(leaf: u32, eax: u32, ebx: u32, ecx: u32, edx: u32) -> (result: Option<CPUIDResult>)
    ensures
        result.is_some() <==> eax >= leaf,
        result.is_some() ==> result.unwrap()@ == (eax, ebx, ecx, edx),
{
    if eax >= leaf {
        Some(CPUIDResult { eax, ebx, ecx, edx })
    } else {
        None
    }
}

pub const SSE3: u64 = 0x1;

pub const PCLMUL: u64 = 0x2;

pub const DTES64: u64 = 0x4;

pub const MONITOR: u64 = 0x8;

pub const DS_CPL: u64 = 0x10;

pub const VMX: u64 = 0x20;

pub const SMX: u64 = 0x40;

pub const EST: u64 = 0x80;

pub const TM2: u64 = 0x100;

pub const SSSE3: u64 = 0x200;

pub const CID: u64 = 0x400;

pub const FMA: u64 = 0x1000;

pub const CX16: u64 = 0x2000;

pub const ETPRD: u64 = 0x4000;

pub const PDCM: u64 = 0x8000;

pub const PCIDE: u64 = 0x20000;

pub const DCA: u64 = 0x40000;

pub const SSE4_1: u64 = 0x80000;

pub const SSE4_2: u64 = 0x100000;

pub const X2APIC: u64 = 0x200000;

pub const MOVBE: u64 = 0x400000;

pub const POPCNT: u64 = 0x800000;

pub const AES: u64 = 0x2000000;

pub const XSAVE: u64 = 0x4000000;

pub const OSXSAVE: u64 = 0x8000000;

pub const AVX: u64 = 0x10000000;

pub const FPU: u64 = 0x100000000;

pub const VME: u64 = 0x200000000;

pub const DE: u64 = 0x400000000;

pub const PSE: u64 = 0x800000000;

pub const TSC: u64 = 0x1000000000;

pub const MSR: u64 = 0x2000000000;

pub const PAE: u64 = 0x4000000000;

pub const MCE: u64 = 0x8000000000;

pub const CX8: u64 = 0x10000000000;

pub const APIC: u64 = 0x20000000000;

pub const SEP: u64 = 0x80000000000;

pub const MTRR: u64 = 0x100000000000;

pub const PGE: u64 = 0x200000000000;

pub const MCA: u64 = 0x400000000000;

pub const CMOV: u64 = 0x800000000000;

pub const PAT: u64 = 0x1000000000000;

pub const PSE36: u64 = 0x2000000000000;

pub const PSN: u64 = 0x4000000000000;

pub const CLF: u64 = 0x8000000000000;

pub const DTES: u64 = 0x20000000000000;

pub const ACPI: u64 = 0x40000000000000;

pub const MMX: u64 = 0x80000000000000;

pub const FXSR: u64 = 0x100000000000000;

pub const SSE: u64 = 0x200000000000000;

pub const SSE2: u64 = 0x400000000000000;

pub const SS: u64 = 0x800000000000000;

pub const HTT: u64 = 0x1000000000000000;

pub const TM1: u64 = 0x2000000000000000;

pub const IA64: u64 = 0x4000000000000000;

pub const PBE: u64 = 0x8000000000000000;

/// Every feature bit.
pub const ALL_FEATURES: u64 = 0xFFEFFBFF1EFEF7FF;

/// A set of features of the processor.
#[derive(Clone, Copy, Debug, PartialEq, Eq, Structural)]
pub struct CPUFeatures {
    bits: u64,
}

impl View for CPUFeatures {
    type V = u64;

    /// The bits of the set.
    closed spec fn view(&self) -> u64 {
        self.bits
    }
}

impl CPUFeatures {
    #[verifier::type_invariant]
    spec fn only_features(self) -> bool {
        self.bits & !ALL_FEATURES == 0
    }

    /// The set of the feature bits among the given bits.
    pub fn from_bits_truncate(bits: u64) -> (result: CPUFeatures)
        ensures
            result@ == bits & ALL_FEATURES,
    {
        let kept: u64 = bits & ALL_FEATURES;
        assert(kept & !0xFFEFFBFF1EFEF7FFu64 == 0) by (bit_vector)
            requires
                kept == bits & 0xFFEFFBFF1EFEF7FFu64,
        ;
        CPUFeatures { bits: kept }
    }

    /// The bits of the set.
    pub fn bits(&self) -> (result: u64)
        ensures
            result == self@,
    {
        self.bits
    }

    /// Whether the set holds every one of the given features.
    pub fn contains(&self, features: u64) -> (result: bool)
        ensures
            result == (self@ & features == features),
    {
        self.bits & features == features
    }
}

/// The features that the answer to the query for leaf 1 reports: the
/// fourth register gives the upper half of the bits and the third the lower.
pub fn cpu_features(features: &CPUIDResult) -> (result: CPUFeatures)
    ensures
        result@ == (((features@.3 as u64) << 32) | (features@.2 as u64)) & ALL_FEATURES,
{
    CPUFeatures::from_bits_truncate(((features.edx() as u64) << 32) | (features.ecx() as u64))
}

} // verus!
