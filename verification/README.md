# ubit_firmware

Firmware logic for a BBC micro:bit (nRF51), verified with Verus.

- `src/heartbeat.rs`: the idle-loop counter that reports once every 600000
  iterations.
- `src/serial/`: the UART0 transmit protocol as a state machine that says
  which register access comes next (start task, each byte to TXD, wait for
  TXDRDY and clear it, stop task).
- `src/pin_names.rs`, `src/radio/constants.rs`: board pins and radio defaults.
- `app/`: the firmware itself: entry point, calls into the C++ runtime, and
  the register accesses, made through the `microbit` crate's PAC.
