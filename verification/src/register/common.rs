//! Offsets and typed wrappers of the common register file.

use vstd::prelude::*;

use crate::bits::{spec_get_bit, u8_get_bit};
use crate::frame::{spec_be2, spec_u16};

verus! {

/// Mode register: reset bit and chip-wide mode flags.
pub const MODE: u16 = 0x00;

/// GAR (Gateway IP Address Register), four bytes.
pub const GATEWAY: u16 = 0x01;

/// SUBR (Subnet Mask Register), four bytes.
pub const SUBNET_MASK: u16 = 0x05;

/// SHAR (Source Hardware Address Register), six bytes.
pub const MAC: u16 = 0x09;

/// SIPR (Source IP Address Register), four bytes.
pub const IP: u16 = 0x0F;

/// INTLEVEL (Interrupt Low Level Timer Register), two bytes.
pub const INTERRUPT_TIMER: u16 = 0x13;

/// SIMR (Socket Interrupt Mask Register), one byte.
pub const SOCKET_INTERRUPT_MASK: u16 = 0x18;

/// RTR (Retry Time-value Register), two bytes, in units of 100 microseconds.
pub const RETRY_TIME: u16 = 0x19;

/// RCR (Retry Count Register), one byte.
pub const RETRY_COUNT: u16 = 0x1B;

/// PHYCFGR (PHY Configuration Register), one byte.
pub const PHY_CONFIG: u16 = 0x2E;

/// VERSIONR (Chip Version Register), one byte; reads 0x04 on a healthy chip.
pub const VERSION: u16 = 0x39;

/// A retransmission timeout period, in units of 100 microseconds.  The chip
/// waits this long for a peer response to a CONNECT, DISCON, CLOSE or SEND
/// command before retransmitting or raising a timeout.
#[derive(Copy, Clone, Debug, PartialEq, Eq, Structural)]
pub struct RetryTime(pub u16);

impl RetryTime {
    pub fn to_u16(&self) -> (r: u16)
        ensures
            r == self.0,
    {
        self.0
    }

    /// The two big-endian register bytes of the timeout value.
    pub fn to_register(&self) -> (r: [u8; 2])
        ensures
            r@ == spec_be2(self.0),
    {
        let v: [u8; 2] = [(self.0 / 256) as u8, (self.0 % 256) as u8];
        assert(v@ =~= spec_be2(self.0));
        v
    }

    pub fn from_register(register: [u8; 2]) -> (r: Self)
        ensures
            r.0 == spec_u16(register@[0], register@[1]),
    {
        proof {
            crate::frame::lemma_be2_roundtrip(register@[0], register@[1], 0);
        }
        RetryTime((register[0] as u16) * 256 + (register[1] as u16))
    }

    /// One millisecond is ten register units.
    pub fn from_millis(milliseconds: u16) -> (r: Self)
        requires
            milliseconds <= 6553,
        ensures
            r.0 == milliseconds * 10,
    {
        RetryTime(milliseconds * 10)
    }

    pub fn to_millis(&self) -> (r: u16)
        ensures
            r == self.0 / 10,
    {
        self.0 / 10
    }
}

impl Default for RetryTime {
    /// The chip's reset default: 2000 units, that is 200 milliseconds.
    fn default() -> (r: Self)
        ensures
            r.0 == 2000,
    {
        RetryTime(2000)
    }
}

/// PHY operation mode, bits 3 to 5 of the PHY configuration register.
#[derive(Copy, Clone, Debug, PartialEq, Eq, Structural)]
pub enum PhyOperationMode {
    /// 10BT half-duplex, auto-negotiation disabled.
    HalfDuplex10bt,
    /// 10BT full-duplex, auto-negotiation disabled.
    FullDuplex10bt,
    /// 100BT half-duplex, auto-negotiation disabled.
    HalfDuplex100bt,
    /// 100BT full-duplex, auto-negotiation disabled.
    FullDuplex100bt,
    /// 100BT half-duplex, auto-negotiation enabled.
    HalfDuplex100btAuto,
    /// Power down mode.
    PowerDown,
    /// All capable, auto-negotiation enabled.
    Auto,
}

impl PhyOperationMode {
    /// The operation mode bits inside the PHY configuration byte.
    pub open spec fn spec_u8(self) -> u8 {
        match self {
            PhyOperationMode::HalfDuplex10bt => 0b000_000,
            PhyOperationMode::FullDuplex10bt => 0b001_000,
            PhyOperationMode::HalfDuplex100bt => 0b010_000,
            PhyOperationMode::FullDuplex100bt => 0b011_000,
            PhyOperationMode::HalfDuplex100btAuto => 0b100_000,
            PhyOperationMode::PowerDown => 0b110_000,
            PhyOperationMode::Auto => 0b111_000,
        }
    }

    pub fn to_u8(self) -> (r: u8)
        ensures
            r == self.spec_u8(),
    {
        match self {
            PhyOperationMode::HalfDuplex10bt => 0b000_000,
            PhyOperationMode::FullDuplex10bt => 0b001_000,
            PhyOperationMode::HalfDuplex100bt => 0b010_000,
            PhyOperationMode::FullDuplex100bt => 0b011_000,
            PhyOperationMode::HalfDuplex100btAuto => 0b100_000,
            PhyOperationMode::PowerDown => 0b110_000,
            PhyOperationMode::Auto => 0b111_000,
        }
    }
}

impl Default for PhyOperationMode {
    fn default() -> (r: Self)
        ensures
            r == PhyOperationMode::Auto,
    {
        PhyOperationMode::Auto
    }
}

/// PHY speed status, bit 1 of the PHY configuration register.
#[derive(Copy, Clone, Debug, PartialEq, Eq, Structural)]
pub enum PhySpeedStatus {
    /// 10 Mbps based.
    Mbps10,
    /// 100 Mbps based.
    Mbps100,
}

/// PHY duplex status, bit 2 of the PHY configuration register.
#[derive(Copy, Clone, Debug, PartialEq, Eq, Structural)]
pub enum PhyDuplexStatus {
    HalfDuplex,
    FullDuplex,
}

/// The PHY configuration register byte: link status in bit 0, speed in bit 1,
/// duplex in bit 2, operation mode in bits 3 to 5.
#[derive(Copy, Clone, Debug, PartialEq, Eq, Structural)]
pub struct PhyConfig(pub u8);

impl PhyConfig {
    /// PHY link status: true when the link is up.
    pub fn link_up(&self) -> (r: bool)
        ensures
            r == spec_get_bit(self.0, 0),
    {
        u8_get_bit(self.0, 0)
    }

    /// PHY speed status.
    pub fn speed(&self) -> (r: PhySpeedStatus)
        ensures
            r == (if spec_get_bit(self.0, 1) {
                PhySpeedStatus::Mbps100
            } else {
                PhySpeedStatus::Mbps10
            }),
    {
        if !u8_get_bit(self.0, 1) {
            PhySpeedStatus::Mbps10
        } else {
            PhySpeedStatus::Mbps100
        }
    }

    /// PHY duplex status.
    pub fn duplex(&self) -> (r: PhyDuplexStatus)
        ensures
            r == (if spec_get_bit(self.0, 2) {
                PhyDuplexStatus::FullDuplex
            } else {
                PhyDuplexStatus::HalfDuplex
            }),
    {
        if !u8_get_bit(self.0, 2) {
            PhyDuplexStatus::HalfDuplex
        } else {
            PhyDuplexStatus::FullDuplex
        }
    }

    /// PHY operation mode, or none for the bit patterns the chip does not
    /// define.
    pub fn operation_mode(&self) -> (r: Option<PhyOperationMode>)
        ensures
            match r {
                Some(mode) => mode.spec_u8() == self.0 & 0b111_000,
                None => self.0 & 0b111_000 == 0b101_000,
            },
    {
        match self.0 & 0b111_000 {
            0b000_000 => Some(PhyOperationMode::HalfDuplex10bt),
            0b001_000 => Some(PhyOperationMode::FullDuplex10bt),
            0b010_000 => Some(PhyOperationMode::HalfDuplex100bt),
            0b011_000 => Some(PhyOperationMode::FullDuplex100bt),
            0b100_000 => Some(PhyOperationMode::HalfDuplex100btAuto),
            0b110_000 => Some(PhyOperationMode::PowerDown),
            0b111_000 => Some(PhyOperationMode::Auto),
            _ => {
                proof {
                    let b = self.0;
                    let m = b & 0b111_000;
                    assert(m == 0b101_000) by (bit_vector)
                        requires
                            m == b & 0b111_000,
                            m != 0b000_000 && m != 0b001_000 && m != 0b010_000 && m != 0b011_000
                                && m != 0b100_000 && m != 0b110_000 && m != 0b111_000,
                    ;
                }
                None
            },
        }
    }

    pub fn from_u8(value: u8) -> (r: Self)
        ensures
            r.0 == value,
    {
        PhyConfig(value)
    }
}

} // verus!
