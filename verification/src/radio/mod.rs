//! The micro:bit radio's protocol parameters.

pub mod constants;
