//! The interrupt command register of a local interrupt controller, through
//! which one processor sends interrupts to others.

use crate::bits::{bit_u32, get_bit_u32};
use crate::ioapic::{DeliveryMode, DestinationMode};
use vstd::prelude::*;

verus! {

/// A short way to name the destinations of an interrupt.
#[derive(Clone, Copy, Debug, PartialEq, Eq, Structural)]
pub enum DestinationShorthand {
    NoShorthand,
    AllIncludingSelf,
    AllExcludingSelf,
}

impl DestinationShorthand {
    /// The number that stands for the shorthand in the register.
    pub open spec fn code(self) -> u32 {
        match self {
            DestinationShorthand::NoShorthand => 0,
            DestinationShorthand::AllIncludingSelf => 2,
            DestinationShorthand::AllExcludingSelf => 1,
        }
    }

    /// The number that stands for the shorthand in the register.
    pub fn to_code(self) -> (result: u32)
        ensures
            result == self.code(),
    {
        match self {
            DestinationShorthand::NoShorthand => 0,
            DestinationShorthand::AllIncludingSelf => 2,
            DestinationShorthand::AllExcludingSelf => 1,
        }
    }
}

/// The low half of a command: vector in bits 0 to 7, delivery mode from bit
/// 8, destination mode in bit 11, level in bit 14, shorthand from bit 18.
pub open spec fn command_low(
    vector: u8,
    delivery_mode: DeliveryMode,
    dest_mode: DestinationMode,
    deassert: bool,
    dest_shorthand: DestinationShorthand,
) -> u32 {
    (vector as u32) | ((delivery_mode.code() as u32) << 8) | ((if dest_mode
        == DestinationMode::Logical {
        1u32
    } else {
        0u32
    }) << 11) | ((if deassert {
        1u32
    } else {
        0u32
    }) << 14) | (dest_shorthand.code() << 18)
}

/// The high half of a command: the destination in bits 24 to 31.
pub open spec fn command_high(apic_id: u8) -> u32 {
    (apic_id as u32) << 24
}

/// The two halves of the interrupt command register.
#[derive(Clone, Copy, Debug, PartialEq, Eq, Structural)]
pub struct InterruptCommandRegister {
    pub low: u32,
    pub high: u32,
}

impl InterruptCommandRegister {
    /// The register with the given halves.
    pub fn new(low: u32, high: u32) -> (result: InterruptCommandRegister)
        ensures
            result.low == low,
            result.high == high,
    {
        InterruptCommandRegister { low, high }
    }

    /// Whether a command is pending: bit 12 of the low half.
    pub open spec fn pending(&self) -> bool {
        bit_u32(self.low, 12)
    }

    /// Whether a command that was sent has not been accepted yet.
    pub fn is_pending(&self) -> (result: bool)
        ensures
            result == self.pending(),
    {
        get_bit_u32(self.low, 12)
    }

    /// Asks the processor `apic_id` to reset itself.
    pub fn send_init(&mut self, apic_id: u8)
        requires
            !old(self).pending(),
        ensures
            final(self).high == command_high(apic_id),
            final(self).low == command_low(
                0,
                DeliveryMode::INIT,
                DestinationMode::Physical,
                true,
                DestinationShorthand::NoShorthand,
            ),
    {
        self.send(
            0,
            DeliveryMode::INIT,
            DestinationMode::Physical,
            true,
            DestinationShorthand::NoShorthand,
            apic_id,
        );
    }

    /// Asks the processor `apic_id` to start running at the page `vector`.
    pub fn send_sipi(&mut self, vector: u8, apic_id: u8)
        requires
            !old(self).pending(),
        ensures
            final(self).high == command_high(apic_id),
            final(self).low == command_low(
                vector,
                DeliveryMode::StartUp,
                DestinationMode::Physical,
                true,
                DestinationShorthand::NoShorthand,
            ),
    {
        self.send(
            vector,
            DeliveryMode::StartUp,
            DestinationMode::Physical,
            true,
            DestinationShorthand::NoShorthand,
            apic_id,
        );
    }

    /// Writes a command into the register, the high half first. No command
    /// may be pending.
    pub fn send(
        &mut self,
        vector: u8,
        delivery_mode: DeliveryMode,
        dest_mode: DestinationMode,
        deassert: bool,
        dest_shorthand: DestinationShorthand,
        apic_id: u8,
    )
        requires
            !old(self).pending(),
        ensures
            final(self).high == command_high(apic_id),
            final(self).low == command_low(
                vector,
                delivery_mode,
                dest_mode,
                deassert,
                dest_shorthand,
            ),
    {
        let mode: u32 = delivery_mode.to_code() as u32;
        let logical: u32 = match dest_mode {
            DestinationMode::Physical => 0,
            DestinationMode::Logical => 1,
        };
        let level: u32 = if deassert {
            1
        } else {
            0
        };
        let high: u32 = (apic_id as u32) << 24;
        let low: u32 = (vector as u32) | (mode << 8) | (logical << 11) | (level << 14) | (
        dest_shorthand.to_code() << 18);
        self.high = high;
        self.low = low;
    }
}

/// The processor can be used by the system.
pub const PROCESSOR_ENABLED: u32 = 0x1;

/// The processor can be brought up after boot.
pub const ONLINE_CAPABLE: u32 = 0x2;

/// Whether the processor `apic_id` is to be woken by the processor
/// `own_id`: it is another processor, and the platform says it is
/// enabled or can be brought up.
pub fn should_wake(apic_id: u8, own_id: u8, flags: u32) -> (result: bool)
    ensures
        result == (apic_id != own_id && flags & (PROCESSOR_ENABLED | ONLINE_CAPABLE) != 0),
{
    apic_id != own_id && flags & (PROCESSOR_ENABLED | ONLINE_CAPABLE) != 0
}

/// The commands that wake a processor, in the order in which they are
/// sent: a reset, then twice the order to start at the page `vector`. Each
/// is sent once the one before is no longer pending.
pub fn wake_commands(vector: u8, apic_id: u8) -> (result: Vec<InterruptCommandRegister>)
    ensures
        result@.len() == 3,
        result@[0].high == command_high(apic_id),
        result@[0].low == command_low(
            0,
            DeliveryMode::INIT,
            DestinationMode::Physical,
            true,
            DestinationShorthand::NoShorthand,
        ),
        result@[1].high == command_high(apic_id),
        result@[1].low == command_low(
            vector,
            DeliveryMode::StartUp,
            DestinationMode::Physical,
            true,
            DestinationShorthand::NoShorthand,
        ),
        result@[2] == result@[1],
{
    assert(!bit_u32(0, 12)) by {
        assert(0u32 & (1u32 << 12u32) == 0) by (bit_vector);
    }
    let mut reset = InterruptCommandRegister::new(0, 0);
    reset.send_init(apic_id);
    let mut start = InterruptCommandRegister::new(0, 0);
    start.send_sipi(vector, apic_id);
    let mut commands: Vec<InterruptCommandRegister> = Vec::new();
    commands.push(reset);
    commands.push(start);
    commands.push(start);
    commands
}

} // verus!
