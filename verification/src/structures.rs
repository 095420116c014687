//! Small structures that the processor reads or reports.

use vstd::prelude::*;

verus! {

/// What the processor is given to find a descriptor table: the size of
/// the table less one, and its address.
#[derive(Debug, Clone, Copy, PartialEq, Eq, Structural)]
pub struct DescriptorTablePointer {
    limit: u16,
    base: u64,
}

impl View for DescriptorTablePointer {
    type V = (u16, u64);

    /// The limit and the base.
    closed spec fn view(&self) -> (u16, u64) {
        (self.limit, self.base)
    }
}

impl DescriptorTablePointer {
    /// The pointer to a table at `base` with the given limit.
    pub fn new(limit: u16, base: u64) -> (result: DescriptorTablePointer)
        ensures
            result@ == (limit, base),
    {
        DescriptorTablePointer { limit, base }
    }

    pub fn limit(self) -> (result: u16)
        ensures
            result == self@.0,
    {
        self.limit
    }

    pub fn base(self) -> (result: u64)
        ensures
            result == self@.1,
    {
        self.base
    }
}

/// The table that a selector in an error code points into.
#[derive(Debug, Clone, Copy, PartialEq, Eq, Structural)]
pub enum IndexType {
    GDT,
    IDT0,
    LDT,
    IDT1,
}

/// What the error code of a protection fault says.
#[derive(Debug, Clone, Copy, PartialEq, Eq, Structural)]
pub struct SelectorError {
    /// Whether the fault came from outside the program.
    pub external: bool,
    /// The table that the selector points into.
    pub table: IndexType,
    /// The index of the selector in that table.
    pub index: u64,
}

/// Takes the error code of a protection fault apart: bit 0 says whether the
/// cause was external, bits 1 and 2 name the table, and the thirteen bits
/// from bit 3 are the index.
pub fn decode_selector_error(error_code: u64) -> (result: SelectorError)
    ensures
        result.external == (error_code % 2 == 1),
        result.table == match (error_code / 2) % 4 {
            0 => IndexType::GDT,
            1 => IndexType::IDT0,
            2 => IndexType::LDT,
            _ => IndexType::IDT1,
        },
        result.index == (error_code / 8) % 0x2000,
{
    assert(error_code & 0x1 == error_code % 2 && (error_code >> 1) & 0x3 == (error_code / 2) % 4
        && (error_code >> 3) & 0x1FFF == (error_code / 8) % 0x2000) by (bit_vector);
    let external: bool = (error_code & 0x1) != 0x0;
    let kind: u64 = (error_code >> 1) & 0x3;
    let table = if kind == 0 {
        IndexType::GDT
    } else if kind == 1 {
        IndexType::IDT0
    } else if kind == 2 {
        IndexType::LDT
    } else {
        IndexType::IDT1
    };
    SelectorError { external, table, index: (error_code >> 3) & 0x1FFF }
}

} // verus!
