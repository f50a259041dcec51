//! Core driver logic for the W5500 hardwired TCP/IP Ethernet controller.
//!
//! The chip exposes a common register file and eight socket register files,
//! each with its own transmit and receive ring buffer, behind an SPI bus.
//! This crate verifies the framing layer, the register map, the socket
//! primitives, the device lifecycle, and the UDP, TCP and raw-Ethernet
//! endpoints against a ghost trace of the frames exchanged with the chip.

use vstd::prelude::*;

pub mod bits;
pub mod bus;
pub mod device;
pub mod frame;
pub mod host;
pub mod mock;
pub mod net;
pub mod raw_device;
pub mod register;
pub mod socket;
pub mod tcp;
pub mod udp;
pub mod uninitialized_device;

pub use crate::device::{Device, DeviceState};
pub use crate::host::dhcp::Dhcp;
pub use crate::host::manual::Manual;
pub use crate::host::{Host, HostConfig};
pub use crate::net::MacAddress;
pub use crate::uninitialized_device::{InitializeError, UninitializedDevice};

verus! {

/// A non-blocking outcome: a real error, or "nothing to do yet" — no data has
/// arrived, no buffer space has freed, or the chip has not answered a
/// completion poll within its budget.
#[derive(Clone, Debug)]
pub enum NbError<E> {
    Other(E),
    WouldBlock,
}

/// The result of an operation that may complete, fail, or need to be retried.
pub type NbResult<T, E> = Result<T, NbError<E>>;

/// Wake-on-LAN setting of the chip mode register: emit an interrupt on a
/// magic packet, or ignore it.
#[derive(Copy, Clone, Debug, PartialEq, Eq, Structural)]
pub enum OnWakeOnLan {
    InvokeInterrupt,
    Ignore,
}

impl OnWakeOnLan {
    /// Bit 5 of the mode register.
    pub open spec fn spec_u8(self) -> u8 {
        match self {
            OnWakeOnLan::InvokeInterrupt => 0x20,
            OnWakeOnLan::Ignore => 0x00,
        }
    }

    pub fn to_u8(self) -> (r: u8)
        ensures
            r == self.spec_u8(),
    {
        match self {
            OnWakeOnLan::InvokeInterrupt => 0x20,
            OnWakeOnLan::Ignore => 0x00,
        }
    }
}

/// Ping block mode: respond to network pings, or block them.
#[derive(Copy, Clone, Debug, PartialEq, Eq, Structural)]
pub enum OnPingRequest {
    Respond,
    Ignore,
}

impl OnPingRequest {
    /// Bit 4 of the mode register.
    pub open spec fn spec_u8(self) -> u8 {
        match self {
            OnPingRequest::Respond => 0x00,
            OnPingRequest::Ignore => 0x10,
        }
    }

    pub fn to_u8(self) -> (r: u8)
        ensures
            r == self.spec_u8(),
    {
        match self {
            OnPingRequest::Respond => 0x00,
            OnPingRequest::Ignore => 0x10,
        }
    }
}

/// Use [`ConnectionType::PPoE`] when talking to an ADSL modem, otherwise
/// [`ConnectionType::Ethernet`].
#[derive(Copy, Clone, Debug, PartialEq, Eq, Structural)]
pub enum ConnectionType {
    PPoE,
    Ethernet,
}

impl ConnectionType {
    /// Bit 3 of the mode register.
    pub open spec fn spec_u8(self) -> u8 {
        match self {
            ConnectionType::PPoE => 0x08,
            ConnectionType::Ethernet => 0x00,
        }
    }

    pub fn to_u8(self) -> (r: u8)
        ensures
            r == self.spec_u8(),
    {
        match self {
            ConnectionType::PPoE => 0x08,
            ConnectionType::Ethernet => 0x00,
        }
    }
}

/// Force-ARP mode: cache ARP answers, or send an ARP request with every
/// transmission.
#[derive(Copy, Clone, Debug, PartialEq, Eq, Structural)]
pub enum ArpResponses {
    Cache,
    DropAfterUse,
}

impl ArpResponses {
    /// Bit 1 of the mode register.
    pub open spec fn spec_u8(self) -> u8 {
        match self {
            ArpResponses::Cache => 0x00,
            ArpResponses::DropAfterUse => 0x02,
        }
    }

    pub fn to_u8(self) -> (r: u8)
        ensures
            r == self.spec_u8(),
    {
        match self {
            ArpResponses::Cache => 0x00,
            ArpResponses::DropAfterUse => 0x02,
        }
    }
}

/// The value written to the common mode register at initialization.
#[derive(Copy, Clone, Debug, PartialEq, Eq, Structural)]
pub struct Mode {
    pub on_wake_on_lan: OnWakeOnLan,
    pub on_ping_request: OnPingRequest,
    pub connection_type: ConnectionType,
    pub arp_responses: ArpResponses,
}

impl Mode {
    /// The mode byte: each option occupies its own bit.
    pub open spec fn spec_u8(self) -> u8 {
        self.on_wake_on_lan.spec_u8() | self.on_ping_request.spec_u8()
            | self.connection_type.spec_u8() | self.arp_responses.spec_u8()
    }

    pub fn to_u8(self) -> (r: u8)
        ensures
            r == self.spec_u8(),
    {
        self.on_wake_on_lan.to_u8() | self.on_ping_request.to_u8()
            | self.connection_type.to_u8() | self.arp_responses.to_u8()
    }

    pub fn to_register(self) -> (r: [u8; 1])
        ensures
            r@ == seq![self.spec_u8()],
    {
        let v: [u8; 1] = [self.to_u8()];
        assert(v@ =~= seq![self.spec_u8()]);
        v
    }
}

impl Default for Mode {
    /// Wake-on-LAN ignored, pings answered, plain Ethernet, force ARP on.
    fn default() -> (r: Self)
        ensures
            r == (Mode {
                on_wake_on_lan: OnWakeOnLan::Ignore,
                on_ping_request: OnPingRequest::Respond,
                connection_type: ConnectionType::Ethernet,
                arp_responses: ArpResponses::DropAfterUse,
            }),
    {
        Mode {
            on_wake_on_lan: OnWakeOnLan::Ignore,
            on_ping_request: OnPingRequest::Respond,
            connection_type: ConnectionType::Ethernet,
            arp_responses: ArpResponses::DropAfterUse,
        }
    }
}

} // verus!
