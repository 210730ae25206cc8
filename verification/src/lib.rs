//! Logic of a micro:bit (nRF51) firmware: the idle-loop heartbeat, the UART
//! transmit protocol, the board's serial pins and the radio's defaults.

pub mod heartbeat;
pub mod pin_names;
pub mod radio;
pub mod serial;
