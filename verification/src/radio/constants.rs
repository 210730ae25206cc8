//! Defaults of the micro:bit runtime's radio driver (MicroBitRadio).

use vstd::prelude::*;

verus! {

/// Base address shared by all micro:bit radios ("ubit").
pub const MICROBIT_RADIO_BASE_ADDRESS: u32 = 0x7562_6974;

/// Largest payload of one packet, in bytes.
pub const MICROBIT_RADIO_MAX_PACKET_SIZE: u32 = 32;

/// Group a radio belongs to unless told otherwise.
pub const MICROBIT_RADIO_DEFAULT_GROUP: u32 = 0;

/// Size of the header that precedes a packet's payload, in bytes.
pub const MICROBIT_RADIO_HEADER_SIZE: u32 = 4;

/// Number of received packets that are buffered.
pub const MICROBIT_RADIO_MAXIMUM_RX_BUFFERS: u32 = 4;

/// Initial value of the packet CRC.
pub const MICROBIT_RADIO_CRCINIT: u32 = 0xFFFF;

/// CRC polynomial (CRC-16-CCITT).
pub const MICROBIT_RADIO_CRCPOLY: u32 = 0x11021;

/// Default channel: 2400 MHz + 7 MHz.
pub const MICROBIT_RADIO_DEFAULT_FREQUENCY: u8 = 7;

/// Logical address used to transmit.
pub const MICROBIT_RADIO_DEFAULT_TX_ADDRESS: u8 = 0;

/// Logical addresses enabled for reception (a bit mask).
pub const MICROBIT_RADIO_DEFAULT_RX_ADDRESS: u32 = 1;

/// Default packet configuration register 0.
pub const MICROBIT_RADIO_DEFAULT_PCNF0: u32 = 0x0000_0000;

/// Default packet configuration register 1.
pub const MICROBIT_RADIO_DEFAULT_PCNF1: u32 = 0x0204_0000;

/// Initial value of the data whitening.
pub const MICROBIT_RADIO_DEFAULT_DATAWHITEIV: u8 = 0x18;

} // verus!
