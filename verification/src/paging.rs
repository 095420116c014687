//! Page-table entries and their attribute bits.
//!
//! An entry is one 64-bit word in the layout that the processor reads: a frame
//! address in bits 12 to 51 and attribute bits around it.

use crate::address::{is_frame_address, Frame, FRAME_ADDRESS_MASK};
use vstd::prelude::*;

verus! {

/// The entry takes part in translation.
pub const PRESENT: u64 = 0x1;

/// Writes through the entry are allowed.
pub const WRITABLE: u64 = 0x2;

/// Code running without privilege may use the entry.
pub const USERSPACE: u64 = 0x4;

/// Writes go to memory and cache together.
pub const WRITE_THROUGH: u64 = 0x8;

/// The memory behind the entry is not cached.
pub const UNCACHEABLE: u64 = 0x10;

/// The processor has read through the entry.
pub const ACCESSED: u64 = 0x20;

/// The processor has written through the entry.
pub const DIRTY: u64 = 0x40;

/// The entry maps a page itself although it stands above the lowest level.
pub const HUGE: u64 = 0x80;

/// The translation survives a switch of address space.
pub const GLOBAL: u64 = 0x100;

/// The page gets its frame on first use.
pub const DEMAND: u64 = 0x200;

/// Instructions may not be fetched through the entry.
pub const NO_EXECUTE: u64 = 0x8000_0000_0000_0000;

/// Every attribute bit.
pub const ALL_ATTRIBUTES: u64 = 0x8000_0000_0000_03FF;

/// The mark of an entry that maps a page: `map` sets it and `unmap` clears
/// it. The processor ignores the bit, and it belongs to no attribute set, so
/// a page can be mapped with any attributes, with or without `PRESENT`.
pub const IN_USE: u64 = 0x400;

/// Whether `bits` holds attribute bits only.
pub open spec fn is_attribute_bits(bits: u64) -> bool {
    bits & !ALL_ATTRIBUTES == 0
}

/// The frame address held by an entry word.
pub open spec fn word_frame(word: u64) -> u64 {
    word & FRAME_ADDRESS_MASK
}

/// The attribute bits held by an entry word.
pub open spec fn word_attributes(word: u64) -> u64 {
    word & ALL_ATTRIBUTES
}

/// Whether an entry word takes part in translation.
pub open spec fn word_present(word: u64) -> bool {
    word & PRESENT != 0
}

/// Whether an entry word is marked as mapping a huge page.
pub open spec fn word_huge(word: u64) -> bool {
    word & HUGE != 0
}

/// Whether an entry word carries the mark of a mapped page.
pub open spec fn word_in_use(word: u64) -> bool {
    word & IN_USE != 0
}

/// Whether an entry word is taken: it is present or carries the mark of a
/// mapped page.
pub open spec fn word_occupied(word: u64) -> bool {
    word_present(word) || word_in_use(word)
}

/// Whether an entry word may be followed to a table of the next level:
/// present and not huge.
pub open spec fn word_is_table(word: u64) -> bool {
    word_present(word) && !word_huge(word)
}

/// The entry word for a frame address and attribute bits.
pub open spec fn compose_word(frame: u64, attributes: u64) -> u64 {
    frame | attributes
}

/// How [`PageTableEntry::set_attributes`] combines the given attributes with
/// those of the entry.
#[derive(Clone, Copy, Debug, PartialEq, Eq, Structural)]
pub enum AttributeModify {
    /// Switch the given attributes on.
    Insert,
    /// Switch the given attributes off.
    Remove,
    /// Flip the given attributes.
    Toggle,
}

/// The entry word after its attributes were modified.
pub open spec fn modify_word(word: u64, attributes: u64, mode: AttributeModify) -> u64 {
    match mode {
        AttributeModify::Insert => word | attributes,
        AttributeModify::Remove => word & !attributes,
        AttributeModify::Toggle => word ^ attributes,
    }
}

/// The entry word for a mapped page: frame, attributes and the mark.
pub open spec fn leaf_word(frame: u64, attributes: u64) -> u64 {
    compose_word(frame, attributes) | IN_USE
}

/// The word that unmapping leaves in an entry: not present, without the
/// mark, and pointing at frame zero.
pub open spec fn unmapped_word(word: u64) -> u64 {
    reframe_word(word & !(PRESENT | IN_USE), 0)
}

/// The entry word after its frame address was replaced.
pub open spec fn reframe_word(word: u64, frame: u64) -> u64 {
    (word & !FRAME_ADDRESS_MASK) | frame
}

/// Why a walk through the page tables did not reach an entry.
#[derive(Clone, Copy, Debug, PartialEq, Eq, Structural)]
pub enum PagingError {
    /// An entry on the way, or the entry itself, is not present.
    NotMapped,
    /// The way leads through an entry that maps a huge page.
    WalkInterrupted,
    /// A table was missing and no frame was left to hold it.
    AllocError,
}

/// A set of attribute bits of a page-table entry.
#[derive(Clone, Copy, Debug, PartialEq, Eq, Structural)]
pub struct PageAttributes {
    bits: u64,
}

impl View for PageAttributes {
    type V = u64;

    /// The bits of the set.
    closed spec fn view(&self) -> u64 {
        self.bits
    }
}

impl PageAttributes {
    #[verifier::type_invariant]
    spec fn only_attribute_bits(self) -> bool {
        is_attribute_bits(self.bits)
    }

    /// The empty set.
    pub fn empty() -> (result: PageAttributes)
        ensures
            result@ == 0,
    {
        proof {
            lemma_flags_are_attribute_bits();
        }
        PageAttributes::from_bits_truncate(0)
    }

    /// The set of every attribute.
    pub fn all() -> (result: PageAttributes)
        ensures
            result@ == ALL_ATTRIBUTES,
    {
        proof {
            lemma_flags_are_attribute_bits();
        }
        PageAttributes::from_bits_truncate(ALL_ATTRIBUTES)
    }

    /// The set with exactly the given bits, if all of them are attribute bits.
    pub fn from_bits(bits: u64) -> (result: Option<PageAttributes>)
        ensures
            result.is_some() <==> is_attribute_bits(bits),
            result.is_some() ==> result.unwrap()@ == bits,
    {
        if bits & !ALL_ATTRIBUTES == 0 {
            Some(PageAttributes { bits })
        } else {
            None
        }
    }

    /// The set of the attribute bits among the given bits.
    pub fn from_bits_truncate(bits: u64) -> (result: PageAttributes)
        ensures
            result@ == bits & ALL_ATTRIBUTES,
            is_attribute_bits(result@),
            is_attribute_bits(bits) ==> result@ == bits,
    {
        let kept: u64 = bits & ALL_ATTRIBUTES;
        assert(kept & !0x8000_0000_0000_03FFu64 == 0 && (bits & !0x8000_0000_0000_03FFu64 == 0
            ==> kept == bits)) by (bit_vector)
            requires
                kept == bits & 0x8000_0000_0000_03FFu64,
        ;
        PageAttributes { bits: kept }
    }

    /// The bits of the set.
    pub fn bits(&self) -> (result: u64)
        ensures
            result == self@,
            is_attribute_bits(result),
    {
        proof {
            use_type_invariant(self);
        }
        self.bits
    }

    /// Whether the set holds no attribute.
    pub fn is_empty(&self) -> (result: bool)
        ensures
            result == (self@ == 0),
    {
        self.bits == 0
    }

    /// Whether every attribute of `other` is in the set.
    pub fn contains(&self, other: PageAttributes) -> (result: bool)
        ensures
            result == (self@ & other@ == other@),
    {
        self.bits & other.bits == other.bits
    }

    /// Whether the set holds every one of the given bits.
    pub fn contains_bits(&self, bits: u64) -> (result: bool)
        ensures
            result == (self@ & bits == bits),
    {
        self.bits & bits == bits
    }

    /// The attributes that are in this set or in `other`.
    pub fn union(self, other: PageAttributes) -> (result: PageAttributes)
        ensures
            result@ == self@ | other@,
    {
        proof {
            use_type_invariant(self);
            use_type_invariant(other);
        }
        let a: u64 = self.bits;
        let b: u64 = other.bits;
        assert((a | b) & !0x8000_0000_0000_03FFu64 == 0) by (bit_vector)
            requires
                a & !0x8000_0000_0000_03FFu64 == 0,
                b & !0x8000_0000_0000_03FFu64 == 0,
        ;
        PageAttributes { bits: a | b }
    }

    /// Adds the attributes of `other` to the set.
    pub fn insert(&mut self, other: PageAttributes)
        ensures
            final(self)@ == old(self)@ | other@,
    {
        let joined = self.union(other);
        *self = joined;
    }

    /// Takes the attributes of `other` out of the set.
    pub fn remove(&mut self, other: PageAttributes)
        ensures
            final(self)@ == old(self)@ & !other@,
    {
        proof {
            use_type_invariant(&*self);
        }
        let a: u64 = self.bits;
        let b: u64 = other.bits;
        assert((a & !b) & !0x8000_0000_0000_03FFu64 == 0) by (bit_vector)
            requires
                a & !0x8000_0000_0000_03FFu64 == 0,
        ;
        *self = PageAttributes { bits: a & !b };
    }

    /// Flips the attributes of `other` in the set.
    pub fn toggle(&mut self, other: PageAttributes)
        ensures
            final(self)@ == old(self)@ ^ other@,
    {
        proof {
            use_type_invariant(&*self);
            use_type_invariant(other);
        }
        let a: u64 = self.bits;
        let b: u64 = other.bits;
        assert((a ^ b) & !0x8000_0000_0000_03FFu64 == 0) by (bit_vector)
            requires
                a & !0x8000_0000_0000_03FFu64 == 0,
                b & !0x8000_0000_0000_03FFu64 == 0,
        ;
        *self = PageAttributes { bits: a ^ b };
    }
}

/// One slot of a page table: a 64-bit word in the processor's layout.
#[derive(Clone, Copy, Debug, PartialEq, Eq, Structural)]
pub struct PageTableEntry {
    word: u64,
}

impl View for PageTableEntry {
    type V = u64;

    /// The word of the entry.
    closed spec fn view(&self) -> u64 {
        self.word
    }
}

impl PageTableEntry {
    /// The entry that points at `frame` with the given attributes.
    pub fn new(frame: Frame, attributes: PageAttributes) -> (result: PageTableEntry)
        ensures
            result@ == compose_word(frame@, attributes@),
            word_frame(result@) == frame@,
            word_attributes(result@) == attributes@,
    {
        let addr: u64 = frame.get();
        let bits: u64 = attributes.bits();
        proof {
            lemma_compose_round_trip(addr, bits);
        }
        PageTableEntry { word: addr | bits }
    }

    /// The entry with no bit set: not present, pointing nowhere.
    pub fn empty() -> (result: PageTableEntry)
        ensures
            result@ == 0,
    {
        PageTableEntry { word: 0 }
    }

    /// The entry with the given word.
    pub fn from_raw(word: u64) -> (result: PageTableEntry)
        ensures
            result@ == word,
    {
        PageTableEntry { word }
    }

    /// The word of the entry.
    pub fn raw(&self) -> (result: u64)
        ensures
            result == self@,
    {
        self.word
    }

    /// The frame that the entry points at.
    pub fn get_frame(&self) -> (result: Frame)
        ensures
            result@ == word_frame(self@),
    {
        Frame::new_truncate(self.word)
    }

    /// Points the entry at `frame` and keeps every other bit.
    pub fn set_frame(&mut self, frame: Frame)
        ensures
            final(self)@ == reframe_word(old(self)@, frame@),
            word_frame(final(self)@) == frame@,
            word_attributes(final(self)@) == word_attributes(old(self)@),
    {
        let addr: u64 = frame.get();
        let word: u64 = self.word;
        proof {
            lemma_reframe(word, addr);
        }
        self.word = (word & !FRAME_ADDRESS_MASK) | addr;
    }

    /// The attributes of the entry.
    pub fn get_attributes(&self) -> (result: PageAttributes)
        ensures
            result@ == word_attributes(self@),
    {
        PageAttributes::from_bits_truncate(self.word)
    }

    /// Sets, removes or toggles the given attributes and keeps the frame.
    pub fn set_attributes(&mut self, attributes: PageAttributes, mode: AttributeModify)
        ensures
            final(self)@ == modify_word(old(self)@, attributes@, mode),
            word_frame(final(self)@) == word_frame(old(self)@),
    {
        let bits: u64 = attributes.bits();
        let word: u64 = self.word;
        proof {
            lemma_modify_keeps_frame(word, bits, mode);
        }
        match mode {
            AttributeModify::Insert => {
                self.word = word | bits;
            },
            AttributeModify::Remove => {
                self.word = word & !bits;
            },
            AttributeModify::Toggle => {
                self.word = word ^ bits;
            },
        }
    }

    /// Whether the entry takes part in translation.
    pub fn is_present(&self) -> (result: bool)
        ensures
            result == word_present(self@),
    {
        self.word & PRESENT != 0
    }

    /// Whether the entry is marked as mapping a huge page.
    pub fn is_huge(&self) -> (result: bool)
        ensures
            result == word_huge(self@),
    {
        self.word & HUGE != 0
    }

    /// Whether the entry carries the mark of a mapped page.
    pub fn is_in_use(&self) -> (result: bool)
        ensures
            result == word_in_use(self@),
    {
        self.word & IN_USE != 0
    }

    /// Whether the entry is taken: present, or marked as mapping a page.
    pub fn is_occupied(&self) -> (result: bool)
        ensures
            result == word_occupied(self@),
    {
        self.word & PRESENT != 0 || self.word & IN_USE != 0
    }

    /// The entry that maps a page to `frame` with the given attributes:
    /// frame, attributes and the mark of a mapped page.
    pub fn new_mapping(frame: Frame, attributes: PageAttributes) -> (result: PageTableEntry)
        ensures
            result@ == leaf_word(frame@, attributes@),
    {
        let plain = PageTableEntry::new(frame, attributes);
        PageTableEntry { word: plain.word | IN_USE }
    }

    /// Turns the entry into one that maps nothing: `PRESENT` and the mark
    /// are cleared and the frame is set to zero; the other attributes stay.
    pub fn clear_mapping(&mut self)
        ensures
            final(self)@ == unmapped_word(old(self)@),
    {
        self.word = (self.word & !(PRESENT | IN_USE) & !FRAME_ADDRESS_MASK) | 0;
    }
}

/// Every named flag is an attribute bit, and so is every union of attribute bits.
pub proof fn lemma_flags_are_attribute_bits()
    ensures
        is_attribute_bits(PRESENT),
        is_attribute_bits(WRITABLE),
        is_attribute_bits(USERSPACE),
        is_attribute_bits(WRITE_THROUGH),
        is_attribute_bits(UNCACHEABLE),
        is_attribute_bits(ACCESSED),
        is_attribute_bits(DIRTY),
        is_attribute_bits(HUGE),
        is_attribute_bits(GLOBAL),
        is_attribute_bits(DEMAND),
        is_attribute_bits(NO_EXECUTE),
        is_attribute_bits(0),
        is_attribute_bits(ALL_ATTRIBUTES),
        forall|a: u64, b: u64|
            is_attribute_bits(a) && is_attribute_bits(b) ==> is_attribute_bits(#[trigger] (a | b)),
        forall|a: u64| #[trigger] (a | HUGE) & HUGE == HUGE,
{
    assert(0x1u64 & !0x8000_0000_0000_03FFu64 == 0 && 0x2u64 & !0x8000_0000_0000_03FFu64 == 0
        && 0x4u64 & !0x8000_0000_0000_03FFu64 == 0 && 0x8u64 & !0x8000_0000_0000_03FFu64 == 0
        && 0x10u64 & !0x8000_0000_0000_03FFu64 == 0 && 0x20u64 & !0x8000_0000_0000_03FFu64 == 0
        && 0x40u64 & !0x8000_0000_0000_03FFu64 == 0 && 0x80u64 & !0x8000_0000_0000_03FFu64 == 0
        && 0x100u64 & !0x8000_0000_0000_03FFu64 == 0 && 0x200u64 & !0x8000_0000_0000_03FFu64 == 0
        && 0x8000_0000_0000_0000u64 & !0x8000_0000_0000_03FFu64 == 0 && 0u64
        & !0x8000_0000_0000_03FFu64 == 0 && 0x8000_0000_0000_03FFu64 & !0x8000_0000_0000_03FFu64
        == 0) by (bit_vector);
    assert forall|a: u64| #[trigger] (a | HUGE) & HUGE == HUGE by {
        assert((a | 0x80) & 0x80 == 0x80) by (bit_vector);
    }
    assert forall|a: u64, b: u64| is_attribute_bits(a) && is_attribute_bits(b) implies
        is_attribute_bits(#[trigger] (a | b)) by {
        assert((a | b) & !0x8000_0000_0000_03FFu64 == 0) by (bit_vector)
            requires
                a & !0x8000_0000_0000_03FFu64 == 0,
                b & !0x8000_0000_0000_03FFu64 == 0,
        ;
    }
}

/// Composing an entry from a frame address and attribute bits loses neither.
pub proof fn lemma_compose_round_trip(frame: u64, attributes: u64)
    requires
        is_frame_address(frame),
        is_attribute_bits(attributes),
    ensures
        word_frame(compose_word(frame, attributes)) == frame,
        word_attributes(compose_word(frame, attributes)) == attributes,
        word_present(compose_word(frame, attributes)) == (attributes & PRESENT != 0),
        word_huge(compose_word(frame, attributes)) == (attributes & HUGE != 0),
{
    assert((frame | attributes) & 0x000F_FFFF_FFFF_F000u64 == frame && (frame | attributes)
        & 0x8000_0000_0000_03FFu64 == attributes && (frame | attributes) & 0x1 == attributes & 0x1
        && (frame | attributes) & 0x80 == attributes & 0x80) by (bit_vector)
        requires
            frame % 0x1000 == 0 && frame < 0x10_0000_0000_0000u64,
            attributes & !0x8000_0000_0000_03FFu64 == 0,
    ;
}

/// Replacing the frame of an entry word keeps its attributes.
pub proof fn lemma_reframe(word: u64, frame: u64)
    requires
        is_frame_address(frame),
    ensures
        word_frame(reframe_word(word, frame)) == frame,
        word_attributes(reframe_word(word, frame)) == word_attributes(word),
        word_present(reframe_word(word, frame)) == word_present(word),
        word_huge(reframe_word(word, frame)) == word_huge(word),
{
    let new_word = (word & !0x000F_FFFF_FFFF_F000u64) | frame;
    assert(new_word & 0x000F_FFFF_FFFF_F000u64 == frame && new_word & 0x8000_0000_0000_03FFu64
        == word & 0x8000_0000_0000_03FFu64 && new_word & 0x1 == word & 0x1 && new_word & 0x80
        == word & 0x80) by (bit_vector)
        requires
            frame % 0x1000 == 0 && frame < 0x10_0000_0000_0000u64,
            new_word == (word & !0x000F_FFFF_FFFF_F000u64) | frame,
    ;
}

/// Modifying attribute bits of an entry word keeps its frame and its mark.
pub proof fn lemma_modify_keeps_frame(word: u64, attributes: u64, mode: AttributeModify)
    requires
        is_attribute_bits(attributes),
    ensures
        word_frame(modify_word(word, attributes, mode)) == word_frame(word),
        word_in_use(modify_word(word, attributes, mode)) == word_in_use(word),
{
    assert((word | attributes) & 0x000F_FFFF_FFFF_F400u64 == word & 0x000F_FFFF_FFFF_F400u64 && (
    word & !attributes) & 0x000F_FFFF_FFFF_F400u64 == word & 0x000F_FFFF_FFFF_F400u64 && (word
        ^ attributes) & 0x000F_FFFF_FFFF_F400u64 == word & 0x000F_FFFF_FFFF_F400u64)
        by (bit_vector)
        requires
            attributes & !0x8000_0000_0000_03FFu64 == 0,
    ;
    let after = modify_word(word, attributes, mode);
    assert(after & 0x000F_FFFF_FFFF_F000u64 == word & 0x000F_FFFF_FFFF_F000u64 && after & 0x400u64
        == word & 0x400u64) by (bit_vector)
        requires
            after & 0x000F_FFFF_FFFF_F400u64 == word & 0x000F_FFFF_FFFF_F400u64,
    ;
}

/// The entry that links to a table can be followed to it, and the empty
/// entry is neither taken nor a link.
pub proof fn lemma_link_word(child: u64)
    requires
        is_frame_address(child),
    ensures
        word_is_table(compose_word(child, PRESENT)),
        word_frame(compose_word(child, PRESENT)) == child,
        !word_occupied(0),
        !word_is_table(0),
{
    assert((child | 0x1) & 0x1 != 0 && (child | 0x1) & 0x80 == 0 && (child | 0x1)
        & 0x000F_FFFF_FFFF_F000u64 == child && 0u64 & 0x1 == 0 && 0u64 & 0x400 == 0) by (bit_vector)
        requires
            child % 0x1000 == 0 && child < 0x10_0000_0000_0000u64,
    ;
}

/// The entry of a mapped page holds its frame and exactly the attributes
/// given, and it is taken whatever the attributes are.
pub proof fn lemma_leaf_word(frame: u64, attributes: u64)
    requires
        is_frame_address(frame),
        is_attribute_bits(attributes),
    ensures
        word_frame(leaf_word(frame, attributes)) == frame,
        word_attributes(leaf_word(frame, attributes)) == attributes,
        word_occupied(leaf_word(frame, attributes)),
        word_in_use(leaf_word(frame, attributes)),
        word_present(leaf_word(frame, attributes)) == (attributes & PRESENT != 0),
        word_huge(leaf_word(frame, attributes)) == (attributes & HUGE != 0),
{
    let word = (frame | attributes) | 0x400;
    assert(word & 0x000F_FFFF_FFFF_F000u64 == frame && word & 0x8000_0000_0000_03FFu64
        == attributes && word & 0x400 != 0 && word & 0x1 == attributes & 0x1 && word & 0x80
        == attributes & 0x80) by (bit_vector)
        requires
            frame % 0x1000 == 0 && frame < 0x10_0000_0000_0000u64,
            attributes & !0x8000_0000_0000_03FFu64 == 0,
            word == (frame | attributes) | 0x400,
    ;
}

/// The entry that unmapping leaves is not taken, and keeps the attributes
/// other than `PRESENT`.
pub proof fn lemma_unmapped_word(word: u64)
    ensures
        !word_occupied(unmapped_word(word)),
        !word_is_table(unmapped_word(word)),
        word_frame(unmapped_word(word)) == 0,
        word_attributes(unmapped_word(word)) == word_attributes(word) & !PRESENT,
{
    let after = ((word & !(0x1u64 | 0x400u64)) & !0x000F_FFFF_FFFF_F000u64) | 0u64;
    assert(after & 0x1 == 0 && after & 0x400 == 0 && after & 0x000F_FFFF_FFFF_F000u64 == 0 && after
        & 0x8000_0000_0000_03FFu64 == (word & 0x8000_0000_0000_03FFu64) & !0x1u64) by (bit_vector)
        requires
            after == ((word & !(0x1u64 | 0x400u64)) & !0x000F_FFFF_FFFF_F000u64) | 0u64,
    ;
}

/// Switching attributes on keeps an entry taken, present or huge if it
/// was, and a second time changes nothing.
pub proof fn lemma_insert_keeps_flags(word: u64, attributes: u64)
    requires
        is_attribute_bits(attributes),
    ensures
        word_present(word) ==> word_present(modify_word(word, attributes, AttributeModify::Insert)),
        word_occupied(word) ==> word_occupied(
            modify_word(word, attributes, AttributeModify::Insert),
        ),
        word_huge(word) ==> word_huge(modify_word(word, attributes, AttributeModify::Insert)),
        word_frame(modify_word(word, attributes, AttributeModify::Insert)) == word_frame(word),
        word_attributes(modify_word(word, attributes, AttributeModify::Insert)) == word_attributes(
            word,
        ) | attributes,
        modify_word(
            modify_word(word, attributes, AttributeModify::Insert),
            attributes,
            AttributeModify::Insert,
        ) == modify_word(word, attributes, AttributeModify::Insert),
{
    let raised = word | attributes;
    assert((word & 0x1 != 0 ==> raised & 0x1 != 0) && (word & 0x400 != 0 ==> raised & 0x400 != 0)
        && (word & 0x80 != 0 ==> raised & 0x80 != 0) && raised & 0x000F_FFFF_FFFF_F000u64 == word
        & 0x000F_FFFF_FFFF_F000u64 && raised & 0x8000_0000_0000_03FFu64 == (word
        & 0x8000_0000_0000_03FFu64) | attributes && raised | attributes == raised) by (bit_vector)
        requires
            raised == word | attributes,
            attributes & !0x8000_0000_0000_03FFu64 == 0,
    ;
}

} // verus!
