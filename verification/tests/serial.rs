use ubit_firmware::serial::{RegisterWrite, Transmitter, TxAction, UartRegister};

fn w(register: UartRegister, value: u32) -> RegisterWrite {
    RegisterWrite { register, value }
}

/// Drives a transmission against a simulated UART whose TXDRDY event is
/// raised after `busy_polls` polls that read 0. Returns the writes made and
/// the number of actions taken.
fn run(msg: &[u8], busy_polls: usize) -> (Vec<RegisterWrite>, usize) {
    let mut tx = Transmitter::new(msg);
    let mut writes = Vec::new();
    let mut txdrdy: u32 = 0;
    let mut polls_left = 0usize;
    let mut steps = 0usize;
    loop {
        match tx.next_action() {
            TxAction::Write(rw) => {
                match rw.register {
                    UartRegister::Txd => {
                        txdrdy = 0;
                        polls_left = busy_polls;
                    }
                    UartRegister::EventsTxdRdy => txdrdy = rw.value,
                    _ => {}
                }
                writes.push(rw);
                tx.complete(0);
            }
            TxAction::PollTxReady => {
                if polls_left == 0 {
                    txdrdy = 1;
                } else {
                    polls_left -= 1;
                }
                tx.complete(txdrdy);
            }
            TxAction::Finished => break,
        }
        steps += 1;
        assert!(steps < 10_000);
    }
    (writes, steps)
}

#[test]
fn sends_each_byte_between_start_and_stop() {
    let (writes, steps) = run(b"hi", 0);
    assert_eq!(
        writes,
        vec![
            w(UartRegister::TasksStartTx, 1),
            w(UartRegister::Txd, b'h' as u32),
            w(UartRegister::EventsTxdRdy, 0),
            w(UartRegister::Txd, b'i' as u32),
            w(UartRegister::EventsTxdRdy, 0),
            w(UartRegister::TasksStopTx, 1),
        ]
    );
    assert_eq!(steps, 3 * 2 + 2);
}

#[test]
fn empty_message_only_starts_and_stops() {
    let (writes, steps) = run(b"", 0);
    assert_eq!(
        writes,
        vec![w(UartRegister::TasksStartTx, 1), w(UartRegister::TasksStopTx, 1)]
    );
    assert_eq!(steps, 2);
}

#[test]
fn busy_uart_only_adds_polls() {
    let (fast, fast_steps) = run(b"ping", 0);
    let (slow, slow_steps) = run(b"ping", 3);
    assert_eq!(fast, slow);
    assert_eq!(fast_steps, 3 * 4 + 2);
    assert_eq!(slow_steps, fast_steps + 3 * 4);
}

#[test]
fn waits_until_txdrdy_is_raised() {
    let mut tx = Transmitter::new(b"a");
    assert_eq!(tx.next_action(), TxAction::Write(w(UartRegister::TasksStartTx, 1)));
    tx.complete(0);
    assert_eq!(tx.next_action(), TxAction::Write(w(UartRegister::Txd, 97)));
    tx.complete(0);
    for _ in 0..5 {
        assert_eq!(tx.next_action(), TxAction::PollTxReady);
        tx.complete(0);
    }
    assert_eq!(tx.next_action(), TxAction::PollTxReady);
    tx.complete(7);
    assert_eq!(tx.next_action(), TxAction::Write(w(UartRegister::EventsTxdRdy, 0)));
    tx.complete(0);
    assert_eq!(tx.next_action(), TxAction::Write(w(UartRegister::TasksStopTx, 1)));
    tx.complete(0);
    assert_eq!(tx.next_action(), TxAction::Finished);
    tx.complete(1);
    assert_eq!(tx.next_action(), TxAction::Finished);
}

#[test]
fn byte_values_go_to_txd_unchanged() {
    let msg: Vec<u8> = vec![0, 0x7f, 0x80, 0xff];
    let (writes, _) = run(&msg, 1);
    let txd: Vec<u32> = writes
        .iter()
        .filter(|rw| rw.register == UartRegister::Txd)
        .map(|rw| rw.value)
        .collect();
    assert_eq!(txd, vec![0, 0x7f, 0x80, 0xff]);
}

/// Carries out the actions asked for, reading `polls` in order at polls and
/// handing `junk` to writes; stops when finished or when `polls` runs out.
fn drive(msg: &[u8], polls: &[u32], junk: u32) -> (bool, Vec<RegisterWrite>) {
    let mut tx = Transmitter::new(msg);
    let mut writes = Vec::new();
    let mut next_poll = 0usize;
    loop {
        match tx.next_action() {
            TxAction::Write(rw) => {
                writes.push(rw);
                tx.complete(junk);
            }
            TxAction::PollTxReady => {
                if next_poll == polls.len() {
                    return (false, writes);
                }
                tx.complete(polls[next_poll]);
                next_poll += 1;
            }
            TxAction::Finished => return (true, writes),
        }
    }
}

#[test]
fn finishes_exactly_when_enough_polls_find_ready() {
    let msg = b"abc";
    let (done, writes) = drive(msg, &[0, 1, 0, 0, 9], 0xdead_beef);
    assert!(!done);
    assert_eq!(writes.len(), 6);
    let (done, writes) = drive(msg, &[0, 1, 0, 0, 9, 0, 2], 0xdead_beef);
    assert!(done);
    assert_eq!(writes, run(msg, 0).0);
}
