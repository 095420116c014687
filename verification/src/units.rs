//! Size units, alignment arithmetic and small shared types.

use vstd::prelude::*;

verus! {

pub const KIBIBYTE: u64 = 0x400;

pub const MIBIBYTE: u64 = 0x10_0000;

pub const GIBIBYTE: u64 = 0x100_0000_0000;

/// Bytes of address space that one entry of a top-level page table spans.
pub const PT_L4_ENTRY_MEM: u64 = 0x80_0000_0000;

/// Marks a register that may only be read.
pub struct ReadOnly;

/// Marks a register that may only be written.
pub struct WriteOnly;

/// Marks a register that may be read and written.
pub struct ReadWrite;

/// Whether `alignment` is a power of two.
pub open spec fn is_power_of_two(alignment: usize) -> bool {
    alignment > 0 && alignment & ((alignment - 1) as usize) == 0
}

/// Number of whole kibibytes in `value` bytes.
pub fn to_kibibytes(value: u64) -> (result: u64)
    ensures
        result == value / KIBIBYTE,
{
    value / KIBIBYTE
}

/// Number of whole mebibytes in `value` bytes.
pub fn to_mibibytes(value: u64) -> (result: u64)
    ensures
        result == value / MIBIBYTE,
{
    value / MIBIBYTE
}

/// For a power of two, the bits below it are the remainder of the division by it.
pub proof fn lemma_low_bits_are_remainder(v: u64, a: u64)
    requires
        a > 0,
        a & ((a - 1) as u64) == 0,
    ensures
        v & ((a - 1) as u64) == v % a,
{
    let m: u64 = (a - 1) as u64;
    assert(a == 0x1 ||
        a == 0x2 ||
        a == 0x4 ||
        a == 0x8 ||
        a == 0x10 ||
        a == 0x20 ||
        a == 0x40 ||
        a == 0x80 ||
        a == 0x100 ||
        a == 0x200 ||
        a == 0x400 ||
        a == 0x800 ||
        a == 0x1000 ||
        a == 0x2000 ||
        a == 0x4000 ||
        a == 0x8000 ||
        a == 0x10000 ||
        a == 0x20000 ||
        a == 0x40000 ||
        a == 0x80000 ||
        a == 0x100000 ||
        a == 0x200000 ||
        a == 0x400000 ||
        a == 0x800000 ||
        a == 0x1000000 ||
        a == 0x2000000 ||
        a == 0x4000000 ||
        a == 0x8000000 ||
        a == 0x10000000 ||
        a == 0x20000000 ||
        a == 0x40000000 ||
        a == 0x80000000 ||
        a == 0x100000000 ||
        a == 0x200000000 ||
        a == 0x400000000 ||
        a == 0x800000000 ||
        a == 0x1000000000 ||
        a == 0x2000000000 ||
        a == 0x4000000000 ||
        a == 0x8000000000 ||
        a == 0x10000000000 ||
        a == 0x20000000000 ||
        a == 0x40000000000 ||
        a == 0x80000000000 ||
        a == 0x100000000000 ||
        a == 0x200000000000 ||
        a == 0x400000000000 ||
        a == 0x800000000000 ||
        a == 0x1000000000000 ||
        a == 0x2000000000000 ||
        a == 0x4000000000000 ||
        a == 0x8000000000000 ||
        a == 0x10000000000000 ||
        a == 0x20000000000000 ||
        a == 0x40000000000000 ||
        a == 0x80000000000000 ||
        a == 0x100000000000000 ||
        a == 0x200000000000000 ||
        a == 0x400000000000000 ||
        a == 0x800000000000000 ||
        a == 0x1000000000000000 ||
        a == 0x2000000000000000 ||
        a == 0x4000000000000000 ||
        a == 0x8000000000000000) by (bit_vector)
        requires
            a > 0,
            m == a - 1,
            a & m == 0,
    ;
    assert((a == 0x1 ==> v & 0x0 == v % 0x1) &&
        (a == 0x2 ==> v & 0x1 == v % 0x2) &&
        (a == 0x4 ==> v & 0x3 == v % 0x4) &&
        (a == 0x8 ==> v & 0x7 == v % 0x8) &&
        (a == 0x10 ==> v & 0xf == v % 0x10) &&
        (a == 0x20 ==> v & 0x1f == v % 0x20) &&
        (a == 0x40 ==> v & 0x3f == v % 0x40) &&
        (a == 0x80 ==> v & 0x7f == v % 0x80) &&
        (a == 0x100 ==> v & 0xff == v % 0x100) &&
        (a == 0x200 ==> v & 0x1ff == v % 0x200) &&
        (a == 0x400 ==> v & 0x3ff == v % 0x400) &&
        (a == 0x800 ==> v & 0x7ff == v % 0x800) &&
        (a == 0x1000 ==> v & 0xfff == v % 0x1000) &&
        (a == 0x2000 ==> v & 0x1fff == v % 0x2000) &&
        (a == 0x4000 ==> v & 0x3fff == v % 0x4000) &&
        (a == 0x8000 ==> v & 0x7fff == v % 0x8000) &&
        (a == 0x10000 ==> v & 0xffff == v % 0x10000) &&
        (a == 0x20000 ==> v & 0x1ffff == v % 0x20000) &&
        (a == 0x40000 ==> v & 0x3ffff == v % 0x40000) &&
        (a == 0x80000 ==> v & 0x7ffff == v % 0x80000) &&
        (a == 0x100000 ==> v & 0xfffff == v % 0x100000) &&
        (a == 0x200000 ==> v & 0x1fffff == v % 0x200000) &&
        (a == 0x400000 ==> v & 0x3fffff == v % 0x400000) &&
        (a == 0x800000 ==> v & 0x7fffff == v % 0x800000) &&
        (a == 0x1000000 ==> v & 0xffffff == v % 0x1000000) &&
        (a == 0x2000000 ==> v & 0x1ffffff == v % 0x2000000) &&
        (a == 0x4000000 ==> v & 0x3ffffff == v % 0x4000000) &&
        (a == 0x8000000 ==> v & 0x7ffffff == v % 0x8000000) &&
        (a == 0x10000000 ==> v & 0xfffffff == v % 0x10000000) &&
        (a == 0x20000000 ==> v & 0x1fffffff == v % 0x20000000) &&
        (a == 0x40000000 ==> v & 0x3fffffff == v % 0x40000000) &&
        (a == 0x80000000 ==> v & 0x7fffffff == v % 0x80000000) &&
        (a == 0x100000000 ==> v & 0xffffffff == v % 0x100000000) &&
        (a == 0x200000000 ==> v & 0x1ffffffff == v % 0x200000000) &&
        (a == 0x400000000 ==> v & 0x3ffffffff == v % 0x400000000) &&
        (a == 0x800000000 ==> v & 0x7ffffffff == v % 0x800000000) &&
        (a == 0x1000000000 ==> v & 0xfffffffff == v % 0x1000000000) &&
        (a == 0x2000000000 ==> v & 0x1fffffffff == v % 0x2000000000) &&
        (a == 0x4000000000 ==> v & 0x3fffffffff == v % 0x4000000000) &&
        (a == 0x8000000000 ==> v & 0x7fffffffff == v % 0x8000000000) &&
        (a == 0x10000000000 ==> v & 0xffffffffff == v % 0x10000000000) &&
        (a == 0x20000000000 ==> v & 0x1ffffffffff == v % 0x20000000000) &&
        (a == 0x40000000000 ==> v & 0x3ffffffffff == v % 0x40000000000) &&
        (a == 0x80000000000 ==> v & 0x7ffffffffff == v % 0x80000000000) &&
        (a == 0x100000000000 ==> v & 0xfffffffffff == v % 0x100000000000) &&
        (a == 0x200000000000 ==> v & 0x1fffffffffff == v % 0x200000000000) &&
        (a == 0x400000000000 ==> v & 0x3fffffffffff == v % 0x400000000000) &&
        (a == 0x800000000000 ==> v & 0x7fffffffffff == v % 0x800000000000) &&
        (a == 0x1000000000000 ==> v & 0xffffffffffff == v % 0x1000000000000) &&
        (a == 0x2000000000000 ==> v & 0x1ffffffffffff == v % 0x2000000000000) &&
        (a == 0x4000000000000 ==> v & 0x3ffffffffffff == v % 0x4000000000000) &&
        (a == 0x8000000000000 ==> v & 0x7ffffffffffff == v % 0x8000000000000) &&
        (a == 0x10000000000000 ==> v & 0xfffffffffffff == v % 0x10000000000000) &&
        (a == 0x20000000000000 ==> v & 0x1fffffffffffff == v % 0x20000000000000) &&
        (a == 0x40000000000000 ==> v & 0x3fffffffffffff == v % 0x40000000000000) &&
        (a == 0x80000000000000 ==> v & 0x7fffffffffffff == v % 0x80000000000000) &&
        (a == 0x100000000000000 ==> v & 0xffffffffffffff == v % 0x100000000000000) &&
        (a == 0x200000000000000 ==> v & 0x1ffffffffffffff == v % 0x200000000000000) &&
        (a == 0x400000000000000 ==> v & 0x3ffffffffffffff == v % 0x400000000000000) &&
        (a == 0x800000000000000 ==> v & 0x7ffffffffffffff == v % 0x800000000000000) &&
        (a == 0x1000000000000000 ==> v & 0xfffffffffffffff == v % 0x1000000000000000) &&
        (a == 0x2000000000000000 ==> v & 0x1fffffffffffffff == v % 0x2000000000000000) &&
        (a == 0x4000000000000000 ==> v & 0x3fffffffffffffff == v % 0x4000000000000000) &&
        (a == 0x8000000000000000 ==> v & 0x7fffffffffffffff == v % 0x8000000000000000)) by (bit_vector);
}

/// `value` rounded up to a multiple of `alignment`, a power of two.
pub fn align_up(value: usize, alignment: usize) -> (result: usize)
    requires
        is_power_of_two(alignment),
        value + alignment - 1 <= usize::MAX,
    ensures
        result % alignment == 0,
        value <= result < value + alignment,
{
    let alignment_mask: usize = alignment - 1;
    proof {
        let v: u64 = value as u64;
        let a: u64 = alignment as u64;
        let m: u64 = alignment_mask as u64;
        assert(a & m == 0) by {
            assert(alignment & alignment_mask == 0);
        }
        lemma_low_bits_are_remainder(v, a);
        assert((v | m) == v - (v & m) + m) by (bit_vector);
        assert((value & alignment_mask) as u64 == v & m);
        assert((value | alignment_mask) as u64 == v | m);
        if v % a != 0 {
            let raised = (v - v % a + a) as int;
            assert(raised % (a as int) == 0) by (nonlinear_arith)
                requires
                    a > 0,
                    raised == v - v % a + a,
            ;
        }
    }
    if value & alignment_mask == 0 {
        value
    } else {
        (value | alignment_mask) + 1
    }
}

/// Number of blocks of `alignment` bytes needed to hold `value` bytes.
pub fn align_up_div(value: usize, alignment: usize) -> (result: usize)
    requires
        alignment > 0,
        value + alignment <= usize::MAX,
    ensures
        result == (value + alignment - 1) / alignment as int,
        result * alignment >= value,
        result * alignment < value + alignment,
{
    let result: usize = ((value + alignment) - 1) / alignment;
    proof {
        let total = (value + alignment - 1) as int;
        vstd::arithmetic::div_mod::lemma_fundamental_div_mod(total, alignment as int);
        vstd::arithmetic::div_mod::lemma_mod_bound(total, alignment as int);
        assert(alignment * (total / alignment as int) == (total / alignment as int) * alignment)
            by (nonlinear_arith);
    }
    result
}

/// `value` rounded down to a multiple of `alignment`, a power of two.
pub fn align_down(value: usize, alignment: usize) -> (result: usize)
    requires
        is_power_of_two(alignment),
    ensures
        result % alignment == 0,
        result <= value < result + alignment,
        result == value - value % alignment,
{
    let alignment_mask: usize = alignment - 1;
    let result: usize = value & !alignment_mask;
    proof {
        let v: u64 = value as u64;
        let a: u64 = alignment as u64;
        let m: u64 = alignment_mask as u64;
        assert(a & m == 0) by {
            assert(alignment & alignment_mask == 0);
        }
        lemma_low_bits_are_remainder(v, a);
        assert((value & alignment_mask) as u64 == v & m);
        assert(value & !alignment_mask == value - (value & alignment_mask)) by (bit_vector);
        let lowered = (v - v % a) as int;
        assert(lowered % (a as int) == 0) by (nonlinear_arith)
            requires
                a > 0,
                lowered == v - v % a,
        ;
    }
    result
}

/// Number of whole blocks of `alignment` bytes, a power of two, in `value` bytes.
pub fn align_down_div(value: usize, alignment: usize) -> (result: usize)
    requires
        is_power_of_two(alignment),
    ensures
        result == value / alignment,
{
    let aligned: usize = align_down(value, alignment);
    proof {
        let a = alignment as int;
        let v = value as int;
        vstd::arithmetic::div_mod::lemma_fundamental_div_mod(v, a);
        assert(aligned == a * (v / a));
        vstd::arithmetic::div_mod::lemma_div_multiples_vanish(v / a, a);
        assert(a * (v / a) == (v / a) * a) by (nonlinear_arith);
    }
    aligned / alignment
}

/// A symbol that the linker placed; only its address matters.
#[derive(Clone, Copy, Debug, PartialEq, Eq, Structural)]
pub struct LinkerSymbol {
    pub address: usize,
}

impl LinkerSymbol {
    /// The address of the symbol.
    pub fn as_usize(&self) -> (result: usize)
        ensures
            result == self.address,
    {
        self.address
    }

    /// The address of the symbol.
    pub fn as_u64(&self) -> (result: u64)
        ensures
            result == self.address,
    {
        self.address as u64
    }
}

/// An index that runs through `0..max` and starts over.
#[derive(Debug)]
pub struct IndexRing {
    current: usize,
    max: usize,
}

impl IndexRing {
    #[verifier::type_invariant]
    spec fn inside(self) -> bool {
        self.current == 0 || self.current < self.max
    }

    /// The current index.
    pub closed spec fn position(&self) -> usize {
        self.current
    }

    /// The number of indices.
    pub closed spec fn limit(&self) -> usize {
        self.max
    }

    /// A ring of `max` indices, standing at the first.
    pub fn new(max: usize) -> (result: IndexRing)
        ensures
            result.position() == 0,
            result.limit() == max,
    {
        IndexRing { current: 0, max }
    }

    /// The current index.
    pub fn index(&self) -> (result: usize)
        ensures
            result == self.position(),
            result == 0 || result < self.limit(),
    {
        proof {
            use_type_invariant(self);
        }
        self.current
    }

    /// Moves on to the next index.
    pub fn increment(&mut self)
        requires
            old(self).limit() > 0,
        ensures
            final(self).position() == (old(self).position() + 1) % old(self).limit() as int,
            final(self).limit() == old(self).limit(),
    {
        let next: usize = self.next_index();
        let max: usize = self.max;
        *self = IndexRing { current: next, max };
    }

    /// The index behind the current one; behind the last comes the first.
    pub fn next_index(&self) -> (result: usize)
        requires
            self.limit() > 0,
        ensures
            result == (self.position() + 1) % self.limit() as int,
            result < self.limit(),
    {
        proof {
            use_type_invariant(self);
        }
        (self.current + 1) % self.max
    }
}

} // verus!
