//! The value of the register that holds the root of the active address space.
//!
//! Loading and storing the register itself is the caller's business; this
//! module composes the value to load and takes a stored value apart.

use crate::address::{Frame, PHYSICAL_LIMIT};
use vstd::prelude::*;
use x86_64::PhysAddr;

verus! {

/// Accesses to the root table write through the cache.
pub const PAGE_LEVEL_WRITE_THROUGH: u64 = 0x8;

/// Accesses to the root table bypass the cache.
pub const PAGE_LEVEL_CACHE_DISABLE: u64 = 0x10;

/// Every flag of the register.
pub const ALL_CR3_FLAGS: u64 = 0x18;

/// The flags of the register.
#[derive(Clone, Copy, Debug, PartialEq, Eq, Structural)]
pub struct CR3Flags {
    bits: u64,
}

impl View for CR3Flags {
    type V = u64;

    /// The bits of the flags.
    closed spec fn view(&self) -> u64 {
        self.bits
    }
}

impl CR3Flags {
    #[verifier::type_invariant]
    spec fn only_flags(self) -> bool {
        self.bits & !ALL_CR3_FLAGS == 0
    }

    /// No flag.
    pub fn empty() -> (result: CR3Flags)
        ensures
            result@ == 0,
    {
        assert(0u64 & !0x18u64 == 0) by (bit_vector);
        CR3Flags { bits: 0 }
    }

    /// The flags with exactly the given bits, if every one of them is a flag.
    pub fn from_bits(bits: u64) -> (result: Option<CR3Flags>)
        ensures
            result.is_some() <==> bits & !ALL_CR3_FLAGS == 0,
            result.is_some() ==> result.unwrap()@ == bits,
    {
        if bits & !ALL_CR3_FLAGS == 0 {
            Some(CR3Flags { bits })
        } else {
            None
        }
    }

    /// The bits of the flags.
    pub fn bits(&self) -> (result: u64)
        ensures
            result == self@,
            result & !ALL_CR3_FLAGS == 0,
    {
        proof {
            use_type_invariant(self);
        }
        self.bits
    }
}

/// The bits of optional flags; none stands for no flag.
pub open spec fn flag_bits(flags: Option<CR3Flags>) -> u64 {
    match flags {
        Some(flags) => flags@,
        None => 0,
    }
}

/// Calls `PhysAddr::try_new` of `x86_64`. Trusted: the address comes back
/// unchanged if none of its bits 52 to 63 is set, and nothing comes back
/// otherwise.
#[verifier::external_body]
pub(crate) fn physical_address(addr: u64) -> (result: Option<u64>)
    ensures
        result == if addr < PHYSICAL_LIMIT {
            Some(addr)
        } else {
            None::<u64>
        },
{
    match PhysAddr::try_new(addr) {
        Ok(valid) => Some(valid.as_u64()),
        Err(_) => None,
    }
}

/// The register that holds the root of the active address space.
pub struct CR3;

impl CR3 {
    /// The value to load into the register so that `frame` becomes the root
    /// table, with the given flags.
    pub fn write(frame: &Frame, flags: Option<CR3Flags>) -> (result: u64)
        ensures
            result == frame@ | flag_bits(flags),
    {
        let bits: u64 = match flags {
            Some(some) => some.bits(),
            None => 0,
        };
        frame.get() | bits
    }

    /// Takes a value of the register apart: the frame of the root table,
    /// and the flags if the whole value holds nothing but flags. Returns
    /// nothing if the address part is not a physical address.
    pub fn read(value: u64) -> (result: Option<(Frame, Option<CR3Flags>)>)
        ensures
            result.is_some() <==> (value & !0xFFFu64) < PHYSICAL_LIMIT,
            result.is_some() ==> result.unwrap().0@ == value & !0xFFFu64,
            result.is_some() ==> (result.unwrap().1.is_some() <==> value & !ALL_CR3_FLAGS == 0),
            result.is_some() && result.unwrap().1.is_some() ==> result.unwrap().1.unwrap()@
                == value,
    {
        let masked: u64 = value & !0xFFFu64;
        assert(masked % 0x1000 == 0) by (bit_vector)
            requires
                masked == value & !0xFFFu64,
        ;
        match physical_address(masked) {
            Some(addr) => {
                let frame = Frame::new(addr);
                Some((frame.unwrap(), CR3Flags::from_bits(value)))
            },
            None => None,
        }
    }
}

} // verus!
