use ubit_firmware::pin_names::{USBRX, USBTX};
use ubit_firmware::radio::constants::{
    MICROBIT_RADIO_BASE_ADDRESS, MICROBIT_RADIO_CRCPOLY, MICROBIT_RADIO_DEFAULT_FREQUENCY,
    MICROBIT_RADIO_MAX_PACKET_SIZE,
};

#[test]
fn serial_pins_are_p0_24_and_p0_25() {
    assert_eq!(USBTX, 24);
    assert_eq!(USBRX, 25);
}

#[test]
fn radio_defaults() {
    assert_eq!(MICROBIT_RADIO_BASE_ADDRESS.to_be_bytes(), *b"ubit");
    assert_eq!(MICROBIT_RADIO_MAX_PACKET_SIZE, 32);
    assert_eq!(MICROBIT_RADIO_CRCPOLY, 0x11021);
    assert_eq!(MICROBIT_RADIO_DEFAULT_FREQUENCY, 7);
}
