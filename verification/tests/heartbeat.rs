use ubit_firmware::heartbeat::{Heartbeat, HEARTBEAT_PERIOD};

#[test]
fn first_iteration_reports() {
    let mut h = Heartbeat::new();
    assert!(h.tick());
    assert!(!h.tick());
}

#[test]
fn reports_once_every_period() {
    let mut h = Heartbeat::new();
    let mut reports: Vec<u64> = Vec::new();
    let period = HEARTBEAT_PERIOD as u64;
    for k in 0..(3 * period + 5) {
        if h.tick() {
            reports.push(k);
        }
    }
    assert_eq!(reports, vec![0, period, 2 * period, 3 * period]);
}

#[test]
fn period_is_six_hundred_thousand() {
    assert_eq!(HEARTBEAT_PERIOD, 600000);
}
