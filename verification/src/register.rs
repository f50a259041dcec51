//! The register map of the chip: block identifiers and, in the submodules,
//! the offsets and typed wrappers of the common and per-socket register
//! files.

use vstd::prelude::*;

pub mod common;
pub mod socketn;

verus! {

/// Block identifier of the common register file.
pub const COMMON: u8 = 0b000_00000;

pub const SOCKET0: u8 = 0b000_00001;

pub const SOCKET0_BUFFER_TX: u8 = 0b000_00010;

pub const SOCKET0_BUFFER_RX: u8 = 0b000_00011;

pub const SOCKET1: u8 = 0b000_00101;

pub const SOCKET1_BUFFER_TX: u8 = 0b000_00110;

pub const SOCKET1_BUFFER_RX: u8 = 0b000_00111;

pub const SOCKET2: u8 = 0b000_01001;

pub const SOCKET2_BUFFER_TX: u8 = 0b000_01010;

pub const SOCKET2_BUFFER_RX: u8 = 0b000_01011;

pub const SOCKET3: u8 = 0b000_01101;

pub const SOCKET3_BUFFER_TX: u8 = 0b000_01110;

pub const SOCKET3_BUFFER_RX: u8 = 0b000_01111;

pub const SOCKET4: u8 = 0b000_10001;

pub const SOCKET4_BUFFER_TX: u8 = 0b000_10010;

pub const SOCKET4_BUFFER_RX: u8 = 0b000_10011;

pub const SOCKET5: u8 = 0b000_10101;

pub const SOCKET5_BUFFER_TX: u8 = 0b000_10110;

pub const SOCKET5_BUFFER_RX: u8 = 0b000_10111;

pub const SOCKET6: u8 = 0b000_11001;

pub const SOCKET6_BUFFER_TX: u8 = 0b000_11010;

pub const SOCKET6_BUFFER_RX: u8 = 0b000_11011;

pub const SOCKET7: u8 = 0b000_11101;

pub const SOCKET7_BUFFER_TX: u8 = 0b000_11110;

pub const SOCKET7_BUFFER_RX: u8 = 0b000_11111;

} // verus!
