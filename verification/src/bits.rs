//! Bit and bit-range access on register words.
//!
//! The executable functions here hand the work to the `bit_field` crate; what
//! each of them returns is stated by a spec function of this module.

use bit_field::BitField;
use vstd::prelude::*;

verus! {

/// Bits `start..end` of `value`, moved down to bit 0.
pub open spec fn bit_range_u64(value: u64, start: usize, end: usize) -> u64 {
    ((value << ((64 - end) as u64)) >> ((64 - end) as u64)) >> (start as u64)
}

/// `value` with bits `start..end` replaced by the low bits of `field`.
pub open spec fn with_bit_range_u64(value: u64, start: usize, end: usize, field: u64) -> u64 {
    let span: u64 = (((!0u64) << ((64 - end) as u64)) >> ((64 - end) as u64)) >> (start as u64)
        << (start as u64);
    (value & !span) | (field << (start as u64))
}

/// Whether `field` has no bit set at or above bit `width`.
pub open spec fn fits_in_bits_u64(field: u64, width: usize) -> bool {
    (field << ((64 - width) as u64)) >> ((64 - width) as u64) == field
}

/// Whether bit `bit` of `value` is set.
pub open spec fn bit_u64(value: u64, bit: usize) -> bool {
    value & (1u64 << (bit as u64)) != 0
}

/// `value` with bit `bit` set or cleared.
pub open spec fn with_bit_u64(value: u64, bit: usize, on: bool) -> u64 {
    if on {
        value | (1u64 << (bit as u64))
    } else {
        value & !(1u64 << (bit as u64))
    }
}

/// Bits `start..end` of `value`, moved down to bit 0.
pub open spec fn bit_range_u32(value: u32, start: usize, end: usize) -> u32 {
    ((value << ((32 - end) as u32)) >> ((32 - end) as u32)) >> (start as u32)
}

/// `value` with bits `start..end` replaced by the low bits of `field`.
pub open spec fn with_bit_range_u32(value: u32, start: usize, end: usize, field: u32) -> u32 {
    let span: u32 = (((!0u32) << ((32 - end) as u32)) >> ((32 - end) as u32)) >> (start as u32)
        << (start as u32);
    (value & !span) | (field << (start as u32))
}

/// Whether `field` has no bit set at or above bit `width`.
pub open spec fn fits_in_bits_u32(field: u32, width: usize) -> bool {
    (field << ((32 - width) as u32)) >> ((32 - width) as u32) == field
}

/// Whether bit `bit` of `value` is set.
pub open spec fn bit_u32(value: u32, bit: usize) -> bool {
    value & (1u32 << (bit as u32)) != 0
}

/// `value` with bit `bit` set or cleared.
pub open spec fn with_bit_u32(value: u32, bit: usize, on: bool) -> u32 {
    if on {
        value | (1u32 << (bit as u32))
    } else {
        value & !(1u32 << (bit as u32))
    }
}

/// Calls `BitField::get_bit` of `bit_field` on a `u64`. Trusted: the result is
/// whether the word has a one at position `bit`; the crate panics for a
/// position outside the word, which the precondition excludes.
#[verifier::external_body]
pub(crate) fn get_bit_u64(value: u64, bit: usize) -> (result: bool)
    requires
        bit < 64,
    ensures
        result == bit_u64(value, bit),
{
    value.get_bit(bit)
}

/// Calls `BitField::get_bits` of `bit_field` on a `u64`. Trusted: the result
/// is the word with the bits at and above `end` shifted out and the rest
/// moved down by `start`; the crate panics for a range outside the word, and
/// returns zero for an empty one, which the precondition excludes.
#[verifier::external_body]
pub(crate) fn get_bits_u64(value: u64, start: usize, end: usize) -> (result: u64)
    requires
        start < end <= 64,
    ensures
        result == bit_range_u64(value, start, end),
{
    value.get_bits(start..end)
}

/// Calls `BitField::set_bit` of `bit_field` on a copy of a `u64`. Trusted:
/// the result is the word with the one bit set or cleared; the crate panics
/// for a position outside the word.
#[verifier::external_body]
pub(crate) fn set_bit_u64(value: u64, bit: usize, on: bool) -> (result: u64)
    requires
        bit < 64,
    ensures
        result == with_bit_u64(value, bit, on),
{
    let mut word = value;
    word.set_bit(bit, on);
    word
}

/// Calls `BitField::set_bits` of `bit_field` on a copy of a `u64`. Trusted:
/// the result keeps every bit outside `start..end` and holds `field` inside;
/// the crate panics for a range outside the word and for a `field` wider
/// than the range.
#[verifier::external_body]
pub(crate) fn set_bits_u64(value: u64, start: usize, end: usize, field: u64) -> (result: u64)
    requires
        start < end <= 64,
        fits_in_bits_u64(field, (end - start) as usize),
    ensures
        result == with_bit_range_u64(value, start, end, field),
{
    let mut word = value;
    word.set_bits(start..end, field);
    word
}

/// Calls `BitField::get_bit` of `bit_field` on a `u32`. Trusted: the result is
/// whether the word has a one at position `bit`; the crate panics for a
/// position outside the word.
#[verifier::external_body]
pub(crate) fn get_bit_u32(value: u32, bit: usize) -> (result: bool)
    requires
        bit < 32,
    ensures
        result == bit_u32(value, bit),
{
    value.get_bit(bit)
}

/// Calls `BitField::get_bits` of `bit_field` on a `u32`. Trusted: the result
/// is the word with the bits at and above `end` shifted out and the rest
/// moved down by `start`; the crate panics for a range outside the word, and
/// returns zero for an empty one.
#[verifier::external_body]
pub(crate) fn get_bits_u32(value: u32, start: usize, end: usize) -> (result: u32)
    requires
        start < end <= 32,
    ensures
        result == bit_range_u32(value, start, end),
{
    value.get_bits(start..end)
}

/// Calls `BitField::set_bit` of `bit_field` on a copy of a `u32`. Trusted:
/// the result is the word with the one bit set or cleared; the crate panics
/// for a position outside the word.
#[verifier::external_body]
pub(crate) fn set_bit_u32(value: u32, bit: usize, on: bool) -> (result: u32)
    requires
        bit < 32,
    ensures
        result == with_bit_u32(value, bit, on),
{
    let mut word = value;
    word.set_bit(bit, on);
    word
}

/// Calls `BitField::set_bits` of `bit_field` on a copy of a `u32`. Trusted:
/// the result keeps every bit outside `start..end` and holds `field` inside;
/// the crate panics for a range outside the word and for a `field` wider
/// than the range.
#[verifier::external_body]
pub(crate) fn set_bits_u32(value: u32, start: usize, end: usize, field: u32) -> (result: u32)
    requires
        start < end <= 32,
        fits_in_bits_u32(field, (end - start) as usize),
    ensures
        result == with_bit_range_u32(value, start, end, field),
{
    let mut word = value;
    word.set_bits(start..end, field);
    word
}

} // verus!
