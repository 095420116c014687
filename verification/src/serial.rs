//! The serial port on which the kernel writes its log.

use vstd::prelude::*;

verus! {

/// The I/O port of the first serial line.
pub const COM1: u16 = 0x3FB;

/// The value that opens the divisor latch of the line control register.
pub const LINE_ENABLE_DLAB: u8 = 0x80;

/// The registers of a serial line.
#[derive(Debug, Copy, Clone, Eq, PartialEq, Structural)]
pub enum SerialPort {
    DataPort,
    FIFOCommandPort,
    LineCommandPort,
    ModemCommandPort,
    LineStatusPort,
}

impl SerialPort {
    /// How far the register stands behind the first port of the line.
    pub open spec fn offset(self) -> u16 {
        match self {
            SerialPort::DataPort => 0,
            SerialPort::FIFOCommandPort => 2,
            SerialPort::LineCommandPort => 3,
            SerialPort::ModemCommandPort => 4,
            SerialPort::LineStatusPort => 5,
        }
    }

    /// How far the register stands behind the first port of the line.
    pub fn to_offset(self) -> (result: u16)
        ensures
            result == self.offset(),
    {
        match self {
            SerialPort::DataPort => 0,
            SerialPort::FIFOCommandPort => 2,
            SerialPort::LineCommandPort => 3,
            SerialPort::ModemCommandPort => 4,
            SerialPort::LineStatusPort => 5,
        }
    }
}

/// The speed of a serial line, as the divisor of 115200 baud.
#[derive(Debug, Copy, Clone, Eq, PartialEq, Structural)]
pub enum SerialSpeed {
    S115200,
    S57600,
    S38400,
}

impl SerialSpeed {
    /// The divisor that sets the speed.
    pub open spec fn divisor(self) -> u16 {
        match self {
            SerialSpeed::S115200 => 1,
            SerialSpeed::S57600 => 2,
            SerialSpeed::S38400 => 3,
        }
    }

    /// The divisor that sets the speed.
    pub fn to_divisor(self) -> (result: u16)
        ensures
            result == self.divisor(),
    {
        match self {
            SerialSpeed::S115200 => 1,
            SerialSpeed::S57600 => 2,
            SerialSpeed::S38400 => 3,
        }
    }
}

/// One byte that is to be written to an I/O port.
#[derive(Debug, Copy, Clone, Eq, PartialEq, Structural)]
pub struct PortWrite {
    pub port: u16,
    pub value: u8,
}

/// The I/O ports of one serial line.
#[derive(Debug, Copy, Clone, Eq, PartialEq, Structural)]
pub struct Serial {
    pub data_port: u16,
    pub fifo_port: u16,
    pub line_port: u16,
    pub modem_port: u16,
    pub status_port: u16,
}

/// The writes that set a serial line up: open the divisor latch, write the
/// high and the low byte of the divisor, choose eight bits without parity,
/// switch the buffers on and clear them, and raise the modem lines.
pub open spec fn setup_writes(com: u16, speed: SerialSpeed) -> Seq<PortWrite> {
    seq![
        PortWrite { port: (com + 3) as u16, value: LINE_ENABLE_DLAB },
        PortWrite { port: com, value: 0 },
        PortWrite { port: com, value: speed.divisor() as u8 },
        PortWrite { port: (com + 3) as u16, value: 0x3 },
        PortWrite { port: (com + 2) as u16, value: 0xC7 },
        PortWrite { port: (com + 4) as u16, value: 0x0B },
    ]
}

impl Serial {
    /// The ports of the line whose first port is `com`, and the writes that
    /// set the line up at the given speed, in the order in which they must
    /// be made.
    pub fn init(com: u16, speed: SerialSpeed) -> (result: (Serial, Vec<PortWrite>))
        requires
            com <= u16::MAX - 5,
        ensures
            result.0 == (Serial {
                data_port: com,
                fifo_port: (com + 2) as u16,
                line_port: (com + 3) as u16,
                modem_port: (com + 4) as u16,
                status_port: (com + 5) as u16,
            }),
            result.1@ == setup_writes(com, speed),
    {
        let data_port: u16 = com + SerialPort::DataPort.to_offset();
        let fifo_port: u16 = com + SerialPort::FIFOCommandPort.to_offset();
        let line_port: u16 = com + SerialPort::LineCommandPort.to_offset();
        let modem_port: u16 = com + SerialPort::ModemCommandPort.to_offset();
        let status_port: u16 = com + SerialPort::LineStatusPort.to_offset();
        let divisor: u16 = speed.to_divisor();
        let mut writes: Vec<PortWrite> = Vec::new();
        writes.push(PortWrite { port: line_port, value: LINE_ENABLE_DLAB });
        writes.push(PortWrite { port: data_port, value: ((divisor / 256) * 0x00FF) as u8 });
        writes.push(PortWrite { port: data_port, value: (divisor % 256) as u8 });
        writes.push(PortWrite { port: line_port, value: 0x3 });
        writes.push(PortWrite { port: fifo_port, value: 0xC7 });
        writes.push(PortWrite { port: modem_port, value: 0x0B });
        assert(writes@ =~= setup_writes(com, speed));
        (Serial { data_port, fifo_port, line_port, modem_port, status_port }, writes)
    }
}

} // verus!
