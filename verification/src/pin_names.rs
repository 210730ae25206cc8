//! nRF51 GPIO pins of the micro:bit that the firmware uses.

use vstd::prelude::*;

verus! {

/// UART transmit line to the interface chip (P0.24).
pub const USBTX: u32 = 24;

/// UART receive line from the interface chip (P0.25).
pub const USBRX: u32 = 25;

} // verus!
