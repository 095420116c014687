//! The message-signalled interrupt capability of a PCI device: its control
//! registers and its table of messages.

use crate::bits::{
    bit_range_u32, bit_u32, get_bit_u32, get_bits_u32, set_bit_u32, set_bits_u32,
    with_bit_range_u32, with_bit_u32,
};
use crate::ioapic::DeliveryMode;
use vstd::prelude::*;

verus! {

/// The base address register through which a table of the capability is reached.
#[derive(Clone, Copy, Debug, PartialEq, Eq, Structural)]
pub enum StandardRegister {
    Register0,
    Register1,
    Register2,
    Register3,
    Register4,
    Register5,
}

impl StandardRegister {
    /// The number of the register.
    pub open spec fn number(self) -> u32 {
        match self {
            StandardRegister::Register0 => 0,
            StandardRegister::Register1 => 1,
            StandardRegister::Register2 => 2,
            StandardRegister::Register3 => 3,
            StandardRegister::Register4 => 4,
            StandardRegister::Register5 => 5,
        }
    }

    /// The register with the given number, if there is one.
    pub fn from_number(number: u32) -> (result: Option<StandardRegister>)
        ensures
            result.is_some() <==> number < 6,
            result.is_some() ==> result.unwrap().number() == number,
    {
        match number {
            0 => Some(StandardRegister::Register0),
            1 => Some(StandardRegister::Register1),
            2 => Some(StandardRegister::Register2),
            3 => Some(StandardRegister::Register3),
            4 => Some(StandardRegister::Register4),
            5 => Some(StandardRegister::Register5),
            _ => None,
        }
    }
}

/// Setting a bit and reading it gives what was set, and leaves the table
/// length in bits 16 to 26 alone.
pub proof fn lemma_control_bits(word: u32, on: bool)
    ensures
        bit_u32(with_bit_u32(word, 0, on), 0) == on,
        bit_u32(with_bit_u32(word, 30, on), 30) == on,
        bit_u32(with_bit_u32(word, 31, on), 31) == on,
        bit_u32(with_bit_u32(word, 30, on), 31) == bit_u32(word, 31),
        bit_u32(with_bit_u32(word, 31, on), 30) == bit_u32(word, 30),
        bit_range_u32(with_bit_u32(word, 30, on), 16, 27) == bit_range_u32(word, 16, 27),
        bit_range_u32(with_bit_u32(word, 31, on), 16, 27) == bit_range_u32(word, 16, 27),
{
    let one: u32 = 1;
    let a = if on { word | (one << 0) } else { word & !(one << 0) };
    let b = if on { word | (one << 30) } else { word & !(one << 30) };
    let c = if on { word | (one << 31) } else { word & !(one << 31) };
    assert((a & (one << 0) != 0) == on && (b & (one << 30) != 0) == on && (c & (one << 31) != 0)
        == on && b & (one << 31) == word & (one << 31) && c & (one << 30) == word & (one << 30)
        && ((b << 5) >> 5) >> 16 == ((word << 5) >> 5) >> 16 && ((c << 5) >> 5) >> 16 == ((word
        << 5) >> 5) >> 16) by (bit_vector)
        requires
            one == 1,
            a == if on { word | (one << 0) } else { word & !(one << 0) },
            b == if on { word | (one << 30) } else { word & !(one << 30) },
            c == if on { word | (one << 31) } else { word & !(one << 31) },
    ;
}

/// The message control register.
#[derive(Clone, Copy, Debug, PartialEq, Eq, Structural)]
pub struct MessageControl {
    pub reg0: u32,
}

impl MessageControl {
    /// The table length as the register holds it: one less than the
    /// number of messages.
    pub fn get_table_len(&self) -> (result: usize)
        ensures
            result == bit_range_u32(self.reg0, 16, 27),
    {
        get_bits_u32(self.reg0, 16, 27) as usize
    }

    /// Whether every message of the function is masked.
    pub fn get_force_mask(&self) -> (result: bool)
        ensures
            result == bit_u32(self.reg0, 30),
    {
        get_bit_u32(self.reg0, 30)
    }

    /// Whether the capability is switched on.
    pub fn get_enable(&self) -> (result: bool)
        ensures
            result == bit_u32(self.reg0, 31),
    {
        get_bit_u32(self.reg0, 31)
    }
}

/// The address word of a message for processor `processor_id`.
pub open spec fn message_address(processor_id: u8) -> u32 {
    0xFEE0_0000u32 | ((processor_id as u32) << 12)
}

/// The data word of a message with the given vector and delivery mode.
pub open spec fn message_data(vector: u8, delivery_mode: DeliveryMode) -> u32 {
    (vector as u32) | ((delivery_mode.code() as u32) << 8)
}

/// One entry of the message table.
#[derive(Clone, Copy, Debug, PartialEq, Eq, Structural)]
pub struct Message {
    pub addr_low: u32,
    pub addr_high: u32,
    pub data: u32,
    pub mask: u32,
}

impl Message {
    /// Whether the message is masked: bit 0 of its mask word.
    pub open spec fn masked(&self) -> bool {
        bit_u32(self.mask, 0)
    }

    pub fn get_masked(&self) -> (result: bool)
        ensures
            result == self.masked(),
    {
        get_bit_u32(self.mask, 0)
    }

    pub fn set_masked(&mut self, masked: bool)
        ensures
            final(self).mask == with_bit_u32(old(self).mask, 0, masked),
            final(self).masked() == masked,
            final(self).addr_low == old(self).addr_low,
            final(self).addr_high == old(self).addr_high,
            final(self).data == old(self).data,
    {
        proof {
            lemma_control_bits(self.mask, masked);
        }
        self.mask = set_bit_u32(self.mask, 0, masked);
    }

    /// Points the message at a processor. The message must be masked, and
    /// the vector must lie above the first sixteen.
    pub fn configure(&mut self, processor_id: u8, vector: u8, delivery_mode: DeliveryMode)
        requires
            old(self).masked(),
            vector > 0xF,
        ensures
            final(self).data == message_data(vector, delivery_mode),
            final(self).addr_low == message_address(processor_id),
            final(self).addr_high == 0,
            final(self).mask == old(self).mask,
    {
        let code: u32 = delivery_mode.to_code() as u32;
        let lane: u32 = vector as u32;
        let target: u32 = processor_id as u32;
        assert((lane << 24) >> 24 == lane && (target << 24) >> 24 == target && (0xFEEu32 << 20)
            >> 20 == 0xFEEu32 && (0u32 << 30) >> 30 == 0u32 && (0u32 << 16) >> 16 == 0u32)
            by (bit_vector)
            requires
                lane < 256,
                target < 256,
        ;
        assert((code << 29) >> 29 == code) by (bit_vector)
            requires
                code < 8,
        ;
        let mut data: u32 = 0;
        data = set_bits_u32(data, 0, 8, lane);
        data = set_bits_u32(data, 8, 11, code);
        data = set_bit_u32(data, 14, false);
        data = set_bit_u32(data, 15, false);
        data = set_bits_u32(data, 16, 32, 0);
        let mut addr: u32 = 0;
        addr = set_bits_u32(addr, 0, 2, 0);
        addr = set_bit_u32(addr, 2, false);
        addr = set_bit_u32(addr, 3, false);
        addr = set_bits_u32(addr, 12, 20, target);
        addr = set_bits_u32(addr, 20, 32, 0xFEE);
        proof {
            lemma_configure_words(lane, code, target);
        }
        self.data = data;
        self.addr_low = addr;
        self.addr_high = 0;
    }
}

/// The words that the steps of `configure` build are the data word and the
/// address word of the message.
pub proof fn lemma_configure_words(lane: u32, code: u32, target: u32)
    requires
        lane < 256,
        code < 8,
        target < 256,
    ensures
        with_bit_range_u32(
            with_bit_u32(
                with_bit_u32(
                    with_bit_range_u32(with_bit_range_u32(0, 0, 8, lane), 8, 11, code),
                    14,
                    false,
                ),
                15,
                false,
            ),
            16,
            32,
            0,
        ) == lane | (code << 8),
        with_bit_range_u32(
            with_bit_range_u32(
                with_bit_u32(with_bit_u32(with_bit_range_u32(0, 0, 2, 0), 2, false), 3, false),
                12,
                20,
                target,
            ),
            20,
            32,
            0xFEE,
        ) == 0xFEE0_0000u32 | (target << 12),
{
    let all: u32 = !0u32;
    let one: u32 = 1;
    let zero: u32 = 0;
    let d1 = (zero & !((((all << 24) >> 24) >> 0) << 0)) | (lane << 0);
    let d2 = (d1 & !((((all << 21) >> 21) >> 8) << 8)) | (code << 8);
    let d3 = d2 & !(one << 14);
    let d4 = d3 & !(one << 15);
    let d5 = (d4 & !((((all << 0) >> 0) >> 16) << 16)) | (zero << 16);
    let a1 = (zero & !((((all << 30) >> 30) >> 0) << 0)) | (zero << 0);
    let a2 = a1 & !(one << 2);
    let a3 = a2 & !(one << 3);
    let a4 = (a3 & !((((all << 12) >> 12) >> 12) << 12)) | (target << 12);
    let a5 = (a4 & !((((all << 0) >> 0) >> 20) << 20)) | (0xFEEu32 << 20);
    assert(d5 == lane | (code << 8) && a5 == 0xFEE0_0000u32 | (target << 12)) by (bit_vector)
        requires
            lane < 256,
            code < 8,
            target < 256,
            all == !0u32,
            one == 1,
            zero == 0,
            d1 == (zero & !((((all << 24) >> 24) >> 0) << 0)) | (lane << 0),
            d2 == (d1 & !((((all << 21) >> 21) >> 8) << 8)) | (code << 8),
            d3 == d2 & !(one << 14),
            d4 == d3 & !(one << 15),
            d5 == (d4 & !((((all << 0) >> 0) >> 16) << 16)) | (zero << 16),
            a1 == (zero & !((((all << 30) >> 30) >> 0) << 0)) | (zero << 0),
            a2 == a1 & !(one << 2),
            a3 == a2 & !(one << 3),
            a4 == (a3 & !((((all << 12) >> 12) >> 12) << 12)) | (target << 12),
            a5 == (a4 & !((((all << 0) >> 0) >> 20) << 20)) | (0xFEEu32 << 20),
    ;
}

/// Whether an interrupt of a message waits to be sent.
#[derive(Clone, Copy, Debug, PartialEq, Eq, Structural)]
pub enum PendingBit {
    Unset,
    Raised,
}

impl PendingBit {
    /// The state that a bit value stands for, if the value is a bit.
    pub fn from_value(value: usize) -> (result: Option<PendingBit>)
        ensures
            result == match value {
                0 => Some(PendingBit::Unset),
                1 => Some(PendingBit::Raised),
                _ => None::<PendingBit>,
            },
    {
        match value {
            0 => Some(PendingBit::Unset),
            1 => Some(PendingBit::Raised),
            _ => None,
        }
    }

    /// The bit value of the state.
    pub fn value(self) -> (result: usize)
        ensures
            result == match self {
                PendingBit::Unset => 0usize,
                PendingBit::Raised => 1usize,
            },
    {
        match self {
            PendingBit::Unset => 0,
            PendingBit::Raised => 1,
        }
    }
}

/// The three registers of the capability.
#[derive(Clone, Copy, Debug, PartialEq, Eq, Structural)]
pub struct Data {
    pub reg0: u32,
    pub reg1: u32,
    pub reg2: u32,
}

impl Data {
    pub fn get_enable(&self) -> (result: bool)
        ensures
            result == bit_u32(self.reg0, 31),
    {
        get_bit_u32(self.reg0, 31)
    }

    pub fn set_enable(&mut self, enable: bool)
        ensures
            final(self).reg0 == with_bit_u32(old(self).reg0, 31, enable),
            bit_u32(final(self).reg0, 31) == enable,
            bit_u32(final(self).reg0, 30) == bit_u32(old(self).reg0, 30),
            bit_range_u32(final(self).reg0, 16, 27) == bit_range_u32(old(self).reg0, 16, 27),
            final(self).reg1 == old(self).reg1,
            final(self).reg2 == old(self).reg2,
    {
        proof {
            lemma_control_bits(self.reg0, enable);
        }
        self.reg0 = set_bit_u32(self.reg0, 31, enable);
    }

    pub fn get_function_mask(&self) -> (result: bool)
        ensures
            result == bit_u32(self.reg0, 30),
    {
        get_bit_u32(self.reg0, 30)
    }

    pub fn set_function_mask(&mut self, mask_all: bool)
        ensures
            final(self).reg0 == with_bit_u32(old(self).reg0, 30, mask_all),
            bit_u32(final(self).reg0, 30) == mask_all,
            bit_u32(final(self).reg0, 31) == bit_u32(old(self).reg0, 31),
            bit_range_u32(final(self).reg0, 16, 27) == bit_range_u32(old(self).reg0, 16, 27),
            final(self).reg1 == old(self).reg1,
            final(self).reg2 == old(self).reg2,
    {
        proof {
            lemma_control_bits(self.reg0, mask_all);
        }
        self.reg0 = set_bit_u32(self.reg0, 30, mask_all);
    }

    /// Number of messages in the table: the register holds one less.
    pub fn get_table_len(&self) -> (result: usize)
        ensures
            result == bit_range_u32(self.reg0, 16, 27) + 1,
            result <= 2048,
    {
        let word: u32 = self.reg0;
        let field: u32 = get_bits_u32(word, 16, 27);
        assert(field < 2048) by (bit_vector)
            requires
                field == ((word << 5) >> 5) >> 16,
        ;
        field as usize + 1
    }

    /// Where the message table stands: the base address register, named in
    /// bits 0 to 2, and the offset, which is the rest of the word. Nothing
    /// if the bits name no register.
    pub fn get_table_info(&self) -> (result: Option<(StandardRegister, usize)>)
        ensures
            result.is_some() <==> bit_range_u32(self.reg1, 0, 3) < 6,
            result.is_some() ==> result.unwrap().0.number() == bit_range_u32(self.reg1, 0, 3)
                && result.unwrap().1 == self.reg1 & !7u32,
    {
        table_info(self.reg1)
    }

    /// Where the table of pending bits stands; as [`Data::get_table_info`],
    /// from the third register.
    pub fn get_pending_info(&self) -> (result: Option<(StandardRegister, usize)>)
        ensures
            result.is_some() <==> bit_range_u32(self.reg2, 0, 3) < 6,
            result.is_some() ==> result.unwrap().0.number() == bit_range_u32(self.reg2, 0, 3)
                && result.unwrap().1 == self.reg2 & !7u32,
    {
        table_info(self.reg2)
    }
}

fn table_info(register: u32) -> (result: Option<(StandardRegister, usize)>)
    ensures
        result.is_some() <==> bit_range_u32(register, 0, 3) < 6,
        result.is_some() ==> result.unwrap().0.number() == bit_range_u32(register, 0, 3)
            && result.unwrap().1 == register & !7u32,
{
    match StandardRegister::from_number(get_bits_u32(register, 0, 3)) {
        Some(base) => Some((base, (register & !0b111u32) as usize)),
        None => None,
    }
}

/// The capability: its registers and its message table.
pub struct MSIX {
    data: Data,
    messages: Vec<Message>,
}

impl MSIX {
    /// The registers of the capability.
    pub closed spec fn registers(&self) -> Data {
        self.data
    }

    /// The message table.
    pub closed spec fn table(&self) -> Seq<Message> {
        self.messages@
    }

    /// The capability with the given registers and message table, if the
    /// table has as many messages as the registers say.
    pub fn try_new(data: Data, messages: Vec<Message>) -> (result: Option<MSIX>)
        ensures
            result.is_some() <==> messages@.len() == bit_range_u32(data.reg0, 16, 27) + 1,
            result.is_some() ==> result.unwrap().registers() == data && result.unwrap().table()
                == messages@,
    {
        if messages.len() == data.get_table_len() {
            Some(MSIX { data, messages })
        } else {
            None
        }
    }

    pub fn get_enable(&self) -> (result: bool)
        ensures
            result == bit_u32(self.registers().reg0, 31),
    {
        self.data.get_enable()
    }

    pub fn set_enable(&mut self, enable: bool)
        ensures
            final(self).registers().reg0 == with_bit_u32(old(self).registers().reg0, 31, enable),
            bit_u32(final(self).registers().reg0, 31) == enable,
            final(self).registers().reg1 == old(self).registers().reg1,
            final(self).registers().reg2 == old(self).registers().reg2,
            final(self).table() == old(self).table(),
    {
        self.data.set_enable(enable);
    }

    pub fn get_function_mask(&self) -> (result: bool)
        ensures
            result == bit_u32(self.registers().reg0, 30),
    {
        self.data.get_function_mask()
    }

    pub fn set_function_mask(&mut self, mask_all: bool)
        ensures
            final(self).registers().reg0 == with_bit_u32(old(self).registers().reg0, 30, mask_all),
            bit_u32(final(self).registers().reg0, 30) == mask_all,
            final(self).registers().reg1 == old(self).registers().reg1,
            final(self).registers().reg2 == old(self).registers().reg2,
            final(self).table() == old(self).table(),
    {
        self.data.set_function_mask(mask_all);
    }

    /// The message with the given index, if the table has it.
    pub fn index(&self, index: usize) -> (result: Option<&Message>)
        ensures
            result.is_some() <==> index < self.table().len(),
            result.is_some() ==> *result.unwrap() == self.table()[index as int],
    {
        if index < self.messages.len() {
            Some(&self.messages[index])
        } else {
            None
        }
    }
}

} // verus!
