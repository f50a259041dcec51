//! Offsets and typed wrappers of a socket's register file.

use vstd::prelude::*;

verus! {

/// Sn_MR (Socket Mode Register): protocol selection and mode flags.
pub const MODE: u16 = 0x00;

/// Sn_CR (Socket Command Register): write-triggered commands.
pub const COMMAND: u16 = 0x01;

/// Sn_IR (Socket Interrupt Register): write 1 to clear.
pub const INTERRUPT: u16 = 0x02;

/// Sn_SR (Socket Status Register), read-only.
pub const STATUS: u16 = 0x03;

/// Sn_PORT (Socket Source Port Register), two bytes.
pub const SOURCE_PORT: u16 = 0x04;

/// Sn_DIPR (Socket Destination IP Address Register), four bytes.
pub const DESTINATION_IP: u16 = 0x0C;

/// Sn_DPORT (Socket Destination Port Register), two bytes.
pub const DESTINATION_PORT: u16 = 0x10;

/// Sn_RXBUF_SIZE (Socket RX Buffer Size Register), in KiB units.
pub const RXBUF_SIZE: u16 = 0x1E;

/// Sn_TXBUF_SIZE (Socket TX Buffer Size Register), in KiB units.
pub const TXBUF_SIZE: u16 = 0x1F;

/// Sn_TX_FSR (Socket TX Free Size Register), two bytes.
pub const TX_FREE_SIZE: u16 = 0x20;

/// Sn_TX_RD (Socket TX Read Pointer Register), two bytes.
pub const TX_DATA_READ_POINTER: u16 = 0x22;

/// Sn_TX_WR (Socket TX Write Pointer Register), two bytes.
pub const TX_DATA_WRITE_POINTER: u16 = 0x24;

/// Sn_RX_RSR (Socket RX Received Size Register), two bytes.
pub const RECEIVED_SIZE: u16 = 0x26;

/// Sn_RX_RD (Socket RX Read Pointer Register), two bytes.
pub const RX_DATA_READ_POINTER: u16 = 0x28;

/// Sn_IMR (Socket Interrupt Mask Register), one byte.
pub const INTERRUPT_MASK: u16 = 0x2C;

/// The protocol field of the socket mode register.
#[derive(Copy, Clone, Debug, PartialEq, Eq, Structural)]
pub enum Protocol {
    Closed,
    Tcp,
    Udp,
    MacRaw,
}

impl Protocol {
    pub open spec fn spec_u8(self) -> u8 {
        match self {
            Protocol::Closed => 0b00,
            Protocol::Tcp => 0b01,
            Protocol::Udp => 0b10,
            Protocol::MacRaw => 0b100,
        }
    }

    pub fn to_u8(self) -> (r: u8)
        ensures
            r == self.spec_u8(),
    {
        match self {
            Protocol::Closed => 0b00,
            Protocol::Tcp => 0b01,
            Protocol::Udp => 0b10,
            Protocol::MacRaw => 0b100,
        }
    }
}

/// Socket commands, written to the command register.
#[derive(Copy, Clone, Debug, PartialEq, Eq, Structural)]
pub enum Command {
    Open,
    /// Valid only in TCP mode: wait for a connection request from a peer.
    Listen,
    Connect,
    Discon,
    Close,
    Send,
    /// Completes the processing of received data via the RX read pointer.
    Receive,
}

impl Command {
    pub open spec fn spec_u8(self) -> u8 {
        match self {
            Command::Open => 0x01,
            Command::Listen => 0x02,
            Command::Connect => 0x04,
            Command::Discon => 0x08,
            Command::Close => 0x10,
            Command::Send => 0x20,
            Command::Receive => 0x40,
        }
    }

    pub fn to_u8(self) -> (r: u8)
        ensures
            r == self.spec_u8(),
    {
        match self {
            Command::Open => 0x01,
            Command::Listen => 0x02,
            Command::Connect => 0x04,
            Command::Discon => 0x08,
            Command::Close => 0x10,
            Command::Send => 0x20,
            Command::Receive => 0x40,
        }
    }
}

/// Socket interrupt bits: SEND_OK in bit 4, TIMEOUT in bit 3, RECV in bit 2,
/// DISCON in bit 1, CON in bit 0; `All` addresses every bit at once.
#[derive(Copy, Clone, Debug, PartialEq, Eq, Structural)]
pub enum Interrupt {
    All,
    SendOk,
    Timeout,
    Receive,
    Disconnect,
    Connect,
}

impl Interrupt {
    pub open spec fn spec_u8(self) -> u8 {
        match self {
            Interrupt::All => 0xFF,
            Interrupt::SendOk => 0x10,
            Interrupt::Timeout => 0x08,
            Interrupt::Receive => 0x04,
            Interrupt::Disconnect => 0x02,
            Interrupt::Connect => 0x01,
        }
    }

    pub fn to_u8(self) -> (r: u8)
        ensures
            r == self.spec_u8(),
    {
        match self {
            Interrupt::All => 0xFF,
            Interrupt::SendOk => 0x10,
            Interrupt::Timeout => 0x08,
            Interrupt::Receive => 0x04,
            Interrupt::Disconnect => 0x02,
            Interrupt::Connect => 0x01,
        }
    }
}

/// The socket status register values.  FinWait, Closing, TimeWait, SynSent,
/// SynRecv and LastAck are transient states shown while a connection is set
/// up or torn down.
#[derive(Copy, Clone, Debug, PartialEq, Eq, Structural)]
pub enum Status {
    Closed,
    Init,
    /// Operating as a TCP server, waiting for a connection request.
    Listen,
    Established,
    CloseWait,
    Udp,
    MacRaw,
    SynSent,
    SynRecv,
    FinWait,
    Closing,
    TimeWait,
    LastAck,
}

impl Status {
    pub open spec fn spec_u8(self) -> u8 {
        match self {
            Status::Closed => 0x00,
            Status::Init => 0x13,
            Status::Listen => 0x14,
            Status::Established => 0x17,
            Status::CloseWait => 0x1c,
            Status::Udp => 0x22,
            Status::MacRaw => 0x42,
            Status::SynSent => 0x15,
            Status::SynRecv => 0x16,
            Status::FinWait => 0x18,
            Status::Closing => 0x1a,
            Status::TimeWait => 0x1b,
            Status::LastAck => 0x1d,
        }
    }

    /// The status a register byte denotes, or none for an unrecognised byte.
    pub open spec fn spec_from_u8(value: u8) -> Option<Status> {
        if value == 0x00 {
            Some(Status::Closed)
        } else if value == 0x13 {
            Some(Status::Init)
        } else if value == 0x14 {
            Some(Status::Listen)
        } else if value == 0x17 {
            Some(Status::Established)
        } else if value == 0x1c {
            Some(Status::CloseWait)
        } else if value == 0x22 {
            Some(Status::Udp)
        } else if value == 0x42 {
            Some(Status::MacRaw)
        } else if value == 0x15 {
            Some(Status::SynSent)
        } else if value == 0x16 {
            Some(Status::SynRecv)
        } else if value == 0x18 {
            Some(Status::FinWait)
        } else if value == 0x1a {
            Some(Status::Closing)
        } else if value == 0x1b {
            Some(Status::TimeWait)
        } else if value == 0x1d {
            Some(Status::LastAck)
        } else {
            None
        }
    }

    pub fn to_u8(self) -> (r: u8)
        ensures
            r == self.spec_u8(),
    {
        match self {
            Status::Closed => 0x00,
            Status::Init => 0x13,
            Status::Listen => 0x14,
            Status::Established => 0x17,
            Status::CloseWait => 0x1c,
            Status::Udp => 0x22,
            Status::MacRaw => 0x42,
            Status::SynSent => 0x15,
            Status::SynRecv => 0x16,
            Status::FinWait => 0x18,
            Status::Closing => 0x1a,
            Status::TimeWait => 0x1b,
            Status::LastAck => 0x1d,
        }
    }

    pub fn from_u8(value: u8) -> (r: Option<Status>)
        ensures
            r == Status::spec_from_u8(value),
    {
        if value == 0x00 {
            Some(Status::Closed)
        } else if value == 0x13 {
            Some(Status::Init)
        } else if value == 0x14 {
            Some(Status::Listen)
        } else if value == 0x17 {
            Some(Status::Established)
        } else if value == 0x1c {
            Some(Status::CloseWait)
        } else if value == 0x22 {
            Some(Status::Udp)
        } else if value == 0x42 {
            Some(Status::MacRaw)
        } else if value == 0x15 {
            Some(Status::SynSent)
        } else if value == 0x16 {
            Some(Status::SynRecv)
        } else if value == 0x18 {
            Some(Status::FinWait)
        } else if value == 0x1a {
            Some(Status::Closing)
        } else if value == 0x1b {
            Some(Status::TimeWait)
        } else if value == 0x1d {
            Some(Status::LastAck)
        } else {
            None
        }
    }
}

} // verus!
