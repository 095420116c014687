//! Redirection entries of an I/O interrupt controller.
//!
//! An entry is one 64-bit word that says where an interrupt line is sent
//! and how. The controller's registers hold it as two 32-bit halves.

use crate::bits::{
    bit_range_u32, bit_range_u64, bit_u64, get_bit_u64, get_bits_u32, get_bits_u64, set_bit_u64,
    set_bits_u64, with_bit_range_u64, with_bit_u64,
};
use vstd::prelude::*;

verus! {

/// How an interrupt is delivered to a processor.
#[derive(Clone, Copy, Debug, PartialEq, Eq, Structural)]
pub enum DeliveryMode {
    Fixed,
    LowPriority,
    SMI,
    NMI,
    INIT,
    StartUp,
    ExtINT,
}

impl DeliveryMode {
    /// The number that stands for the mode in a register.
    pub open spec fn code(self) -> u8 {
        match self {
            DeliveryMode::Fixed => 0,
            DeliveryMode::LowPriority => 1,
            DeliveryMode::SMI => 2,
            DeliveryMode::NMI => 4,
            DeliveryMode::INIT => 5,
            DeliveryMode::StartUp => 6,
            DeliveryMode::ExtINT => 7,
        }
    }

    /// The number that stands for the mode in a register.
    pub fn to_code(self) -> (result: u8)
        ensures
            result == self.code(),
            result < 8,
    {
        match self {
            DeliveryMode::Fixed => 0,
            DeliveryMode::LowPriority => 1,
            DeliveryMode::SMI => 2,
            DeliveryMode::NMI => 4,
            DeliveryMode::INIT => 5,
            DeliveryMode::StartUp => 6,
            DeliveryMode::ExtINT => 7,
        }
    }

    /// The mode that a number stands for, if it stands for one.
    pub fn from_code(code: u8) -> (result: Option<DeliveryMode>)
        ensures
            result.is_some() <==> code < 8 && code != 3,
            result.is_some() ==> result.unwrap().code() == code,
    {
        match code {
            0 => Some(DeliveryMode::Fixed),
            1 => Some(DeliveryMode::LowPriority),
            2 => Some(DeliveryMode::SMI),
            4 => Some(DeliveryMode::NMI),
            5 => Some(DeliveryMode::INIT),
            6 => Some(DeliveryMode::StartUp),
            7 => Some(DeliveryMode::ExtINT),
            _ => None,
        }
    }
}

/// How the destination of an interrupt is named.
#[derive(Clone, Copy, Debug, PartialEq, Eq, Structural)]
pub enum DestinationMode {
    Physical,
    Logical,
}

/// At which level an interrupt line is active.
#[derive(Clone, Copy, Debug, PartialEq, Eq, Structural)]
pub enum Polarity {
    SameAsBus,
    ActiveHigh,
    ActiveLow,
}

/// Whether an interrupt line signals by edge or by level.
#[derive(Clone, Copy, Debug, PartialEq, Eq, Structural)]
pub enum TriggerMode {
    SameAsBus,
    Edge,
    Level,
}

/// The fields of a redirection entry.
pub struct RedirectionView {
    pub vector: u8,
    pub delivery_mode: u8,
    pub logical_destination: bool,
    pub awaiting_delivery: bool,
    pub active_low: bool,
    pub level_triggered: bool,
    pub masked: bool,
    pub destination_id: u8,
}

/// The fields that a 64-bit word holds when read as a redirection entry.
pub open spec fn redirection_fields(word: u64) -> RedirectionView {
    RedirectionView {
        vector: bit_range_u64(word, 0, 8) as u8,
        delivery_mode: bit_range_u64(word, 8, 11) as u8,
        logical_destination: bit_u64(word, 11),
        awaiting_delivery: bit_u64(word, 12),
        active_low: bit_u64(word, 13),
        level_triggered: bit_u64(word, 15),
        masked: bit_u64(word, 16),
        destination_id: bit_range_u64(word, 56, 64) as u8,
    }
}

/// One redirection entry.
#[derive(Clone, Copy, Debug, PartialEq, Eq, Structural)]
pub struct RedirectionEntry(u64);

impl View for RedirectionEntry {
    type V = RedirectionView;

    /// The fields of the entry.
    open spec fn view(&self) -> RedirectionView {
        redirection_fields(self.raw())
    }
}

impl RedirectionEntry {
    /// The word of the entry.
    pub closed spec fn raw(&self) -> u64 {
        self.0
    }

    /// The entry that the two halves of a register pair make.
    pub fn from_parts(low_bits: u32, high_bits: u32) -> (result: RedirectionEntry)
        ensures
            result.raw() == ((high_bits as u64) << 32) | (low_bits as u64),
    {
        RedirectionEntry(((high_bits as u64) << 32) | (low_bits as u64))
    }

    /// The two halves of the entry, low half first.
    pub fn to_parts(&self) -> (result: (u32, u32))
        ensures
            result.0 == (self.raw() & 0xFFFF_FFFF) as u32,
            result.1 == (self.raw() >> 32) as u32,
    {
        let word: u64 = self.0;
        assert((word >> 32) <= 0xFFFF_FFFFu64 && (word & 0xFFFF_FFFF) <= 0xFFFF_FFFFu64)
            by (bit_vector);
        ((word & 0xFFFF_FFFF) as u32, (word >> 32) as u32)
    }

    pub fn get_vector(&self) -> (result: u8)
        ensures
            result == self@.vector,
    {
        get_bits_u64(self.0, 0, 8) as u8
    }

    /// Sets the vector, which must not be one of the first 32: those belong
    /// to the processor.
    pub fn set_vector(&mut self, vector: u8)
        requires
            vector >= 32,
        ensures
            final(self).raw() == with_bit_range_u64(old(self).raw(), 0, 8, vector as u64),
            final(self)@ == (RedirectionView { vector, ..old(self)@ }),
    {
        proof {
            lemma_set_low_fields(self.0, vector as u64);
        }
        self.0 = set_bits_u64(self.0, 0, 8, vector as u64);
    }

    /// The delivery mode. The entry must hold the number of a mode.
    pub fn get_delivery_mode(&self) -> (result: DeliveryMode)
        requires
            self@.delivery_mode != 3,
        ensures
            result.code() == self@.delivery_mode,
    {
        let word: u64 = self.0;
        let field: u64 = get_bits_u64(word, 8, 11);
        assert(field < 8) by (bit_vector)
            requires
                field == ((word << 53) >> 53) >> 8,
        ;
        DeliveryMode::from_code(field as u8).unwrap()
    }

    pub fn set_delivery_mode(&mut self, mode: DeliveryMode)
        ensures
            final(self).raw() == with_bit_range_u64(old(self).raw(), 8, 11, mode.code() as u64),
            final(self)@ == (RedirectionView { delivery_mode: mode.code(), ..old(self)@ }),
    {
        let code: u64 = mode.to_code() as u64;
        proof {
            lemma_set_low_fields(self.0, code);
        }
        self.0 = set_bits_u64(self.0, 8, 11, code);
    }

    pub fn get_destination_mode(&self) -> (result: DestinationMode)
        ensures
            result == if self@.logical_destination {
                DestinationMode::Logical
            } else {
                DestinationMode::Physical
            },
    {
        match get_bit_u64(self.0, 11) {
            false => DestinationMode::Physical,
            true => DestinationMode::Logical,
        }
    }

    pub fn set_destination_mode(&mut self, dest_mode: DestinationMode)
        ensures
            final(self).raw() == with_bit_u64(
                old(self).raw(),
                11,
                dest_mode == DestinationMode::Logical,
            ),
            final(self)@ == (RedirectionView {
                logical_destination: dest_mode == DestinationMode::Logical,
                ..old(self)@
            }),
    {
        let logical: bool = match dest_mode {
            DestinationMode::Physical => false,
            DestinationMode::Logical => true,
        };
        proof {
            lemma_set_flags(self.0, logical);
        }
        self.0 = set_bit_u64(self.0, 11, logical);
    }

    pub fn is_awaiting_delivery(&self) -> (result: bool)
        ensures
            result == self@.awaiting_delivery,
    {
        get_bit_u64(self.0, 12)
    }

    pub fn get_pin_polarity(&self) -> (result: Polarity)
        ensures
            result == if self@.active_low {
                Polarity::ActiveLow
            } else {
                Polarity::ActiveHigh
            },
    {
        match get_bit_u64(self.0, 13) {
            false => Polarity::ActiveHigh,
            true => Polarity::ActiveLow,
        }
    }

    pub fn set_pin_polarity(&mut self, polarity: Polarity)
        ensures
            final(self).raw() == with_bit_u64(old(self).raw(), 13, polarity == Polarity::ActiveLow),
            final(self)@ == (RedirectionView {
                active_low: polarity == Polarity::ActiveLow,
                ..old(self)@
            }),
    {
        let low: bool = match polarity {
            Polarity::SameAsBus | Polarity::ActiveHigh => false,
            Polarity::ActiveLow => true,
        };
        proof {
            lemma_set_flags(self.0, low);
        }
        self.0 = set_bit_u64(self.0, 13, low);
    }

    pub fn get_trigger_mode(&self) -> (result: TriggerMode)
        ensures
            result == if self@.level_triggered {
                TriggerMode::Level
            } else {
                TriggerMode::Edge
            },
    {
        match get_bit_u64(self.0, 15) {
            false => TriggerMode::Edge,
            true => TriggerMode::Level,
        }
    }

    pub fn set_trigger_mode(&mut self, trigger_mode: TriggerMode)
        ensures
            final(self).raw() == with_bit_u64(
                old(self).raw(),
                15,
                trigger_mode == TriggerMode::Level,
            ),
            final(self)@ == (RedirectionView {
                level_triggered: trigger_mode == TriggerMode::Level,
                ..old(self)@
            }),
    {
        let level: bool = match trigger_mode {
            TriggerMode::SameAsBus | TriggerMode::Edge => false,
            TriggerMode::Level => true,
        };
        proof {
            lemma_set_flags(self.0, level);
        }
        self.0 = set_bit_u64(self.0, 15, level);
    }

    pub fn get_masked(&self) -> (result: bool)
        ensures
            result == self@.masked,
    {
        get_bit_u64(self.0, 16)
    }

    pub fn set_masked(&mut self, mask: bool)
        ensures
            final(self).raw() == with_bit_u64(old(self).raw(), 16, mask),
            final(self)@ == (RedirectionView { masked: mask, ..old(self)@ }),
    {
        proof {
            lemma_set_flags(self.0, mask);
        }
        self.0 = set_bit_u64(self.0, 16, mask);
    }

    pub fn get_destination_id(&self) -> (result: u8)
        ensures
            result == self@.destination_id,
    {
        get_bits_u64(self.0, 56, 64) as u8
    }

    pub fn set_destination_id(&mut self, dest_id: u8)
        ensures
            final(self).raw() == with_bit_range_u64(old(self).raw(), 56, 64, dest_id as u64),
            final(self)@ == (RedirectionView { destination_id: dest_id, ..old(self)@ }),
    {
        proof {
            lemma_set_low_fields(self.0, dest_id as u64);
        }
        self.0 = set_bits_u64(self.0, 56, 64, dest_id as u64);
    }
}

/// Writing one of the number fields of an entry changes that field and no other.
pub proof fn lemma_set_low_fields(word: u64, field: u64)
    ensures
        field < 256 ==> crate::bits::fits_in_bits_u64(field, 8) && redirection_fields(
            with_bit_range_u64(word, 0, 8, field),
        ) == (RedirectionView { vector: field as u8, ..redirection_fields(word) })
            && redirection_fields(with_bit_range_u64(word, 56, 64, field)) == (RedirectionView {
            destination_id: field as u8,
            ..redirection_fields(word)
        }),
        field < 8 ==> crate::bits::fits_in_bits_u64(field, 3) && redirection_fields(
            with_bit_range_u64(word, 8, 11, field),
        ) == (RedirectionView { delivery_mode: field as u8, ..redirection_fields(word) }),
{
    let one: u64 = 1;
    let all: u64 = !0u64;
    let v = (word & !((((all << 56) >> 56) >> 0) << 0)) | (field << 0);
    let d = (word & !((((all << 0) >> 0) >> 56) << 56)) | (field << 56);
    let m = (word & !((((all << 53) >> 53) >> 8) << 8)) | (field << 8);
    assert(field < 256 ==> (field << 56) >> 56 == field && ((v << 56) >> 56) >> 0 == field && ((v
        << 53) >> 53) >> 8 == ((word << 53) >> 53) >> 8 && ((v << 0) >> 0) >> 56 == ((word << 0)
        >> 0) >> 56 && v & (one << 11) == word & (one << 11) && v & (one << 12) == word & (one
        << 12) && v & (one << 13) == word & (one << 13) && v & (one << 15) == word & (one << 15)
        && v & (one << 16) == word & (one << 16) && ((d << 56) >> 56) >> 0 == ((word << 56)
        >> 56) >> 0 && ((d << 53) >> 53) >> 8 == ((word << 53) >> 53) >> 8 && ((d << 0) >> 0)
        >> 56 == field && d & (one << 11) == word & (one << 11) && d & (one << 12) == word & (one
        << 12) && d & (one << 13) == word & (one << 13) && d & (one << 15) == word & (one << 15)
        && d & (one << 16) == word & (one << 16)) by (bit_vector)
        requires
            one == 1,
            all == !0u64,
            v == (word & !((((all << 56) >> 56) >> 0) << 0)) | (field << 0),
            d == (word & !((((all << 0) >> 0) >> 56) << 56)) | (field << 56),
    ;
    assert(field < 8 ==> (field << 61) >> 61 == field && ((m << 56) >> 56) >> 0 == ((word << 56)
        >> 56) >> 0 && ((m << 53) >> 53) >> 8 == field && ((m << 0) >> 0) >> 56 == ((word << 0)
        >> 0) >> 56 && m & (one << 11) == word & (one << 11) && m & (one << 12) == word & (one
        << 12) && m & (one << 13) == word & (one << 13) && m & (one << 15) == word & (one << 15)
        && m & (one << 16) == word & (one << 16)) by (bit_vector)
        requires
            one == 1,
            all == !0u64,
            m == (word & !((((all << 53) >> 53) >> 8) << 8)) | (field << 8),
    ;
}

/// Writing one of the flags of an entry changes that flag and no other field.
pub proof fn lemma_set_flags(word: u64, on: bool)
    ensures
        redirection_fields(with_bit_u64(word, 11, on)) == (RedirectionView {
            logical_destination: on,
            ..redirection_fields(word)
        }),
        redirection_fields(with_bit_u64(word, 13, on)) == (RedirectionView {
            active_low: on,
            ..redirection_fields(word)
        }),
        redirection_fields(with_bit_u64(word, 15, on)) == (RedirectionView {
            level_triggered: on,
            ..redirection_fields(word)
        }),
        redirection_fields(with_bit_u64(word, 16, on)) == (RedirectionView {
            masked: on,
            ..redirection_fields(word)
        }),
{
    let one: u64 = 1;
    let a = if on { word | (one << 11) } else { word & !(one << 11) };
    let b = if on { word | (one << 13) } else { word & !(one << 13) };
    let c = if on { word | (one << 15) } else { word & !(one << 15) };
    let e = if on { word | (one << 16) } else { word & !(one << 16) };
    assert(((a << 56) >> 56) >> 0 == ((word << 56) >> 56) >> 0 && ((a << 53) >> 53) >> 8 == ((word
        << 53) >> 53) >> 8 && ((a << 0) >> 0) >> 56 == ((word << 0) >> 0) >> 56 && (a & (one
        << 11) != 0) == on && a & (one << 12) == word & (one << 12) && a & (one << 13) == word & (
    one << 13) && a & (one << 15) == word & (one << 15) && a & (one << 16) == word & (one << 16)
        && ((b << 56) >> 56) >> 0 == ((word << 56) >> 56) >> 0 && ((b << 53) >> 53) >> 8 == ((word
        << 53) >> 53) >> 8 && ((b << 0) >> 0) >> 56 == ((word << 0) >> 0) >> 56 && (b & (one
        << 13) != 0) == on && b & (one << 12) == word & (one << 12) && b & (one << 11) == word & (
    one << 11) && b & (one << 15) == word & (one << 15) && b & (one << 16) == word & (one << 16))
        by (bit_vector)
        requires
            one == 1,
            a == if on { word | (one << 11) } else { word & !(one << 11) },
            b == if on { word | (one << 13) } else { word & !(one << 13) },
    ;
    assert(((c << 56) >> 56) >> 0 == ((word << 56) >> 56) >> 0 && ((c << 53) >> 53) >> 8 == ((word
        << 53) >> 53) >> 8 && ((c << 0) >> 0) >> 56 == ((word << 0) >> 0) >> 56 && (c & (one
        << 15) != 0) == on && c & (one << 12) == word & (one << 12) && c & (one << 13) == word & (
    one << 13) && c & (one << 11) == word & (one << 11) && c & (one << 16) == word & (one << 16)
        && ((e << 56) >> 56) >> 0 == ((word << 56) >> 56) >> 0 && ((e << 53) >> 53) >> 8 == ((word
        << 53) >> 53) >> 8 && ((e << 0) >> 0) >> 56 == ((word << 0) >> 0) >> 56 && (e & (one
        << 16) != 0) == on && e & (one << 12) == word & (one << 12) && e & (one << 11) == word & (
    one << 11) && e & (one << 15) == word & (one << 15) && e & (one << 13) == word & (one << 13))
        by (bit_vector)
        requires
            one == 1,
            c == if on { word | (one << 15) } else { word & !(one << 15) },
            e == if on { word | (one << 16) } else { word & !(one << 16) },
    ;
}

/// Index of the first register of the redirection entry of an interrupt line.
pub const REDIRECTION_BASE: u32 = 0x10;

/// One I/O interrupt controller: what it says of itself, and the contents
/// of its registers by register index.
pub struct IoApic {
    id: u8,
    version: u8,
    first_irq: u32,
    end_irq: u32,
    registers: Vec<u32>,
}

impl IoApic {
    /// The identifier of the controller.
    pub closed spec fn spec_id(&self) -> u8 {
        self.id
    }

    /// The version of the controller.
    pub closed spec fn spec_version(&self) -> u8 {
        self.version
    }

    /// The interrupt lines that the controller handles: the first, and the
    /// first behind the last.
    pub closed spec fn spec_irqs(&self) -> (u32, u32) {
        (self.first_irq, self.end_irq)
    }

    /// The contents of the registers, by register index.
    pub closed spec fn spec_registers(&self) -> Seq<u32> {
        self.registers@
    }

    /// Whether the controller handles the line and has the two registers of
    /// its redirection entry.
    pub open spec fn handles(&self, global_irq_num: u32) -> bool {
        &&& self.spec_irqs().0 <= global_irq_num < self.spec_irqs().1
        &&& REDIRECTION_BASE + global_irq_num * 2 + 1 < self.spec_registers().len()
    }

    /// The controller that reports the given identification and version
    /// registers, for the interrupt lines from `irq_base` on. The
    /// identifier stands in bits 24 to 27 of the first register; the version
    /// in bits 0 to 7 of the second, and the number of the last line in its
    /// bits 16 to 23.
    pub fn new(id_register: u32, version_register: u32, irq_base: u32, registers: Vec<u32>) -> (result:
        Option<IoApic>)
        ensures
            result.is_some() <==> irq_base + bit_range_u32(version_register, 16, 24) + 1
                <= u32::MAX,
            result.is_some() ==> {
                let apic = result.unwrap();
                &&& apic.spec_id() == bit_range_u32(id_register, 24, 28) as u8
                &&& apic.spec_version() == bit_range_u32(version_register, 0, 8) as u8
                &&& apic.spec_irqs() == (
                    irq_base,
                    (irq_base + bit_range_u32(version_register, 16, 24) + 1) as u32,
                )
                &&& apic.spec_registers() == registers@
            },
    {
        let id: u8 = get_bits_u32(id_register, 24, 28) as u8;
        let version: u8 = get_bits_u32(version_register, 0, 8) as u8;
        let irq_count: u32 = get_bits_u32(version_register, 16, 24);
        if irq_count < u32::MAX - irq_base {
            Some(
                IoApic {
                    id,
                    version,
                    first_irq: irq_base,
                    end_irq: irq_base + irq_count + 1,
                    registers,
                },
            )
        } else {
            None
        }
    }

    pub fn get_id(&self) -> (result: u8)
        ensures
            result == self.spec_id(),
    {
        self.id
    }

    pub fn get_version(&self) -> (result: u8)
        ensures
            result == self.spec_version(),
    {
        self.version
    }

    /// The interrupt lines that the controller handles: the first, and the
    /// first behind the last.
    pub fn handled_irqs(&self) -> (result: (u32, u32))
        ensures
            result == self.spec_irqs(),
    {
        (self.first_irq, self.end_irq)
    }

    /// The redirection entry of an interrupt line that the controller handles.
    pub fn get_redirection(&self, global_irq_num: u32) -> (result: RedirectionEntry)
        requires
            self.handles(global_irq_num),
        ensures
            result.raw() == ((self.spec_registers()[REDIRECTION_BASE + global_irq_num * 2 + 1] as u64)
                << 32) | (self.spec_registers()[REDIRECTION_BASE + global_irq_num * 2] as u64),
    {
        let registers: usize = self.registers.len();
        assert(REDIRECTION_BASE + global_irq_num * 2 + 1 < registers);
        let reg_base_index: usize = REDIRECTION_BASE as usize + global_irq_num as usize * 2;
        let low_bits: u32 = self.registers[reg_base_index];
        let high_bits: u32 = self.registers[reg_base_index + 1];
        RedirectionEntry::from_parts(low_bits, high_bits)
    }

    /// Replaces the redirection entry of an interrupt line that the
    /// controller handles: the low half goes to the first of its two
    /// registers and the high half to the second.
    pub fn set_redirection(&mut self, global_irq_num: u32, redirection: RedirectionEntry)
        requires
            old(self).handles(global_irq_num),
        ensures
            final(self).spec_registers() == old(self).spec_registers().update(
                REDIRECTION_BASE + global_irq_num * 2,
                (redirection.raw() & 0xFFFF_FFFF) as u32,
            ).update(REDIRECTION_BASE + global_irq_num * 2 + 1, (redirection.raw() >> 32) as u32),
            final(self).spec_id() == old(self).spec_id(),
            final(self).spec_version() == old(self).spec_version(),
            final(self).spec_irqs() == old(self).spec_irqs(),
    {
        let (redirection_low, redirection_high) = redirection.to_parts();
        let registers: usize = self.registers.len();
        assert(REDIRECTION_BASE + global_irq_num * 2 + 1 < registers);
        let reg_base_index: usize = REDIRECTION_BASE as usize + global_irq_num as usize * 2;
        self.registers.set(reg_base_index, redirection_low);
        self.registers.set(reg_base_index + 1, redirection_high);
    }
}

} // verus!
