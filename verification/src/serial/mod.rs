//! Transmission of a message over UART0, polled byte by byte.
//!
//! The transmitter decides which register access comes next; whoever owns
//! the peripheral performs it and reports back. A message goes out as:
//! start the transmitter, then for each byte write it to TXD, wait until
//! TXDRDY is raised and clear that event, and finally stop the transmitter.

use vstd::prelude::*;

verus! {

/// The UART0 registers that a transmission touches.
#[derive(Clone, Copy, Debug, PartialEq, Eq, Structural)]
pub enum UartRegister {
    TasksStartTx,
    TasksStopTx,
    Txd,
    EventsTxdRdy,
}

/// A value to be written to a UART0 register.
#[derive(Clone, Copy, Debug, PartialEq, Eq, Structural)]
pub struct RegisterWrite {
    pub register: UartRegister,
    pub value: u32,
}

/// What the transmitter asks for next.
#[derive(Clone, Copy, Debug, PartialEq, Eq, Structural)]
pub enum TxAction {
    /// Write this value to this register.
    Write(RegisterWrite),
    /// Read EVENTS_TXDRDY and report the value read.
    PollTxReady,
    /// The message has been sent.
    Finished,
}

/// Triggers the start task of the transmitter.
pub open spec fn start_tx() -> RegisterWrite {
    RegisterWrite { register: UartRegister::TasksStartTx, value: 1 }
}

/// Triggers the stop task of the transmitter.
pub open spec fn stop_tx() -> RegisterWrite {
    RegisterWrite { register: UartRegister::TasksStopTx, value: 1 }
}

/// Puts one byte in the transmit register.
pub open spec fn txd_write(c: u8) -> RegisterWrite {
    RegisterWrite { register: UartRegister::Txd, value: c as u32 }
}

/// Clears the "byte sent" event.
pub open spec fn clear_txdrdy() -> RegisterWrite {
    RegisterWrite { register: UartRegister::EventsTxdRdy, value: 0 }
}

/// The writes that send the bytes of `msg`: for each byte, the byte to TXD
/// and then the clearing of TXDRDY.
pub open spec fn byte_writes(msg: Seq<u8>) -> Seq<RegisterWrite>
    decreases msg.len(),
{
    if msg.len() == 0 {
        Seq::empty()
    } else {
        byte_writes(msg.drop_last()) + seq![txd_write(msg.last()), clear_txdrdy()]
    }
}

/// Every register write that sending `msg` makes, in order.
pub open spec fn tx_writes(msg: Seq<u8>) -> Seq<RegisterWrite> {
    seq![start_tx()] + byte_writes(msg) + seq![stop_tx()]
}

/// The state of a transmission: the message, how many of its writes have
/// been made, and whether it waits for TXDRDY.
pub struct TxView {
    pub msg: Seq<u8>,
    pub sent: nat,
    pub waiting: bool,
}

/// A transmission of `msg` that has not begun.
pub open spec fn tx_initial(msg: Seq<u8>) -> TxView {
    TxView { msg, sent: 0, waiting: false }
}

/// What a transmission in state `v` asks for.
pub open spec fn tx_action(v: TxView) -> TxAction {
    if v.waiting {
        TxAction::PollTxReady
    } else if v.sent < tx_writes(v.msg).len() {
        TxAction::Write(tx_writes(v.msg)[v.sent as int])
    } else {
        TxAction::Finished
    }
}

/// The state after the action asked for in `v` was carried out; `read` is
/// the value read from EVENTS_TXDRDY when the action was a poll, and is not
/// looked at otherwise.
pub open spec fn tx_complete(v: TxView, read: u32) -> TxView {
    if v.waiting {
        if read != 0 {
            TxView { waiting: false, ..v }
        } else {
            v
        }
    } else if v.sent < tx_writes(v.msg).len() {
        TxView {
            sent: v.sent + 1,
            waiting: tx_writes(v.msg)[v.sent as int].register == UartRegister::Txd,
            ..v
        }
    } else {
        v
    }
}

enum TxPhase {
    Start,
    Send(usize),
    Wait(usize),
    Clear(usize),
    Stop,
    Done,
}

/// A transmission of one message over UART0. It borrows the message.
pub struct Transmitter<'a> {
    msg: &'a [u8],
    phase: TxPhase,
}

impl<'a> View for Transmitter<'a> {
    type V = TxView;

    closed spec fn view(&self) -> TxView {
        let n = self.msg@.len();
        TxView {
            msg: self.msg@,
            sent: match self.phase {
                TxPhase::Start => 0nat,
                TxPhase::Send(i) => (2 * i + 1) as nat,
                TxPhase::Wait(i) => (2 * i + 2) as nat,
                TxPhase::Clear(i) => (2 * i + 2) as nat,
                TxPhase::Stop => (2 * n + 1) as nat,
                TxPhase::Done => (2 * n + 2) as nat,
            },
            waiting: self.phase is Wait,
        }
    }
}


impl<'a> Transmitter<'a> {
    #[verifier::type_invariant]
    spec fn phase_in_message(self) -> bool {
        match self.phase {
            TxPhase::Send(i) => i < self.msg@.len(),
            TxPhase::Wait(i) => i < self.msg@.len(),
            TxPhase::Clear(i) => i < self.msg@.len(),
            _ => true,
        }
    }

    /// A transmission of `msg` that has not begun.
    pub fn new(msg: &'a [u8]) -> (t: Self)
        ensures
            t@ == tx_initial(msg@),
            tx_view_wf(t@),
    {
        Transmitter { msg, phase: TxPhase::Start }
    }

    /// What the transmission asks for now.
    pub fn next_action(&self) -> (a: TxAction)
        ensures
            a == tx_action(self@),
    {
        proof {
            use_type_invariant(self);
            lemma_tx_writes_shape(self.msg@);
        }
        match self.phase {
            TxPhase::Start => TxAction::Write(
                RegisterWrite { register: UartRegister::TasksStartTx, value: 1 },
            ),
            TxPhase::Send(i) => {
                proof {
                    lemma_tx_writes_of_byte(self.msg@, i as int);
                }
                TxAction::Write(RegisterWrite { register: UartRegister::Txd, value: self.msg[i] as u32 })
            },
            TxPhase::Wait(_) => TxAction::PollTxReady,
            TxPhase::Clear(i) => {
                proof {
                    lemma_tx_writes_of_byte(self.msg@, i as int);
                }
                TxAction::Write(RegisterWrite { register: UartRegister::EventsTxdRdy, value: 0 })
            },
            TxPhase::Stop => TxAction::Write(
                RegisterWrite { register: UartRegister::TasksStopTx, value: 1 },
            ),
            TxPhase::Done => TxAction::Finished,
        }
    }

    /// Records that the action asked for has been carried out; `read` is the
    /// value read from EVENTS_TXDRDY when that action was a poll.
    pub fn complete(&mut self, read: u32)
        ensures
            final(self)@ == tx_complete(old(self)@, read),
            tx_view_wf(final(self)@),
    {
        proof {
            use_type_invariant(&*self);
            lemma_tx_writes_shape(self.msg@);
        }
        let n = self.msg.len();
        match self.phase {
            TxPhase::Start => {
                if n == 0 {
                    self.phase = TxPhase::Stop;
                } else {
                    self.phase = TxPhase::Send(0);
                }
            },
            TxPhase::Send(i) => {
                proof {
                    lemma_tx_writes_of_byte(self.msg@, i as int);
                }
                self.phase = TxPhase::Wait(i);
            },
            TxPhase::Wait(i) => {
                if read != 0 {
                    self.phase = TxPhase::Clear(i);
                }
            },
            TxPhase::Clear(i) => {
                proof {
                    lemma_tx_writes_of_byte(self.msg@, i as int);
                }
                if i + 1 < n {
                    self.phase = TxPhase::Send(i + 1);
                } else {
                    self.phase = TxPhase::Stop;
                }
            },
            TxPhase::Stop => {
                self.phase = TxPhase::Done;
            },
            TxPhase::Done => {},
        }
    }
}

/// The two writes that send byte `i` of `msg`.
proof fn lemma_tx_writes_of_byte(msg: Seq<u8>, i: int)
    requires
        0 <= i < msg.len(),
    ensures
        tx_writes(msg)[2 * i + 1] == txd_write(msg[i]),
        tx_writes(msg)[2 * i + 2] == clear_txdrdy(),
{
    lemma_tx_writes_shape(msg);
}

proof fn lemma_byte_writes_shape(msg: Seq<u8>)
    ensures
        byte_writes(msg).len() == 2 * msg.len(),
        forall|i: int|
            0 <= i < msg.len() ==> byte_writes(msg)[2 * i] == txd_write(#[trigger] msg[i])
                && byte_writes(msg)[2 * i + 1] == clear_txdrdy(),
    decreases msg.len(),
{
    if msg.len() > 0 {
        let prev = msg.drop_last();
        lemma_byte_writes_shape(prev);
        assert forall|i: int| 0 <= i < msg.len() implies byte_writes(msg)[2 * i] == txd_write(
            #[trigger] msg[i],
        ) && byte_writes(msg)[2 * i + 1] == clear_txdrdy() by {
            if i < prev.len() {
                assert(prev[i] == msg[i]);
            }
        }
    }
}

/// The writes that send a message of `n` bytes are: the start task, then for
/// each byte `i` the byte to TXD (at `2i + 1`) and the clearing of TXDRDY (at
/// `2i + 2`), and last the stop task (at `2n + 1`); `2n + 2` writes in all.
pub proof fn lemma_tx_writes_shape(msg: Seq<u8>)
    ensures
        tx_writes(msg).len() == 2 * msg.len() + 2,
        tx_writes(msg)[0] == start_tx(),
        tx_writes(msg)[2 * msg.len() + 1int] == stop_tx(),
        forall|i: int|
            0 <= i < msg.len() ==> tx_writes(msg)[2 * i + 1] == txd_write(#[trigger] msg[i])
                && tx_writes(msg)[2 * i + 2] == clear_txdrdy(),
        tx_writes(msg)[0] == (RegisterWrite { register: UartRegister::TasksStartTx, value: 1 }),
        tx_writes(msg)[2 * msg.len() + 1int] == (RegisterWrite {
            register: UartRegister::TasksStopTx,
            value: 1,
        }),
        forall|i: int|
            0 <= i < msg.len() ==> tx_writes(msg)[2 * i + 1] == (RegisterWrite {
                register: UartRegister::Txd,
                value: #[trigger] msg[i] as u32,
            }) && tx_writes(msg)[2 * i + 2] == (RegisterWrite {
                register: UartRegister::EventsTxdRdy,
                value: 0,
            }),
{
    lemma_byte_writes_shape(msg);
    let w = tx_writes(msg);
    let b = byte_writes(msg);
    assert forall|i: int| 0 <= i < msg.len() implies w[2 * i + 1] == txd_write(#[trigger] msg[i])
        && w[2 * i + 2] == clear_txdrdy() by {
        assert(w[2 * i + 1] == b[2 * i]);
        assert(w[2 * i + 2] == b[2 * i + 1]);
    }
}

/// The bytes written to TXD are the message's bytes, unchanged and in order:
/// the value of the `i`-th TXD write is byte `i` of `msg`, and TXD receives no
/// other write.
pub proof fn lemma_tx_sends_message_unchanged(msg: Seq<u8>)
    ensures
        forall|j: int|
            0 <= j < tx_writes(msg).len() ==> (#[trigger] tx_writes(msg)[j].register
                == UartRegister::Txd <==> j % 2 == 1 && j < 2 * msg.len()),
        Seq::new(msg.len(), |i: int| tx_writes(msg)[2 * i + 1].value) =~= Seq::new(
            msg.len(),
            |i: int| msg[i] as u32,
        ),
{
    lemma_tx_writes_shape(msg);
    assert forall|j: int| 0 <= j < tx_writes(msg).len() implies (#[trigger] tx_writes(
        msg,
    )[j].register == UartRegister::Txd <==> j % 2 == 1 && j < 2 * msg.len()) by {
        if j % 2 == 1 && j < 2 * msg.len() {
            lemma_tx_writes_of_byte(msg, (j - 1) / 2);
        } else if j % 2 == 0 && j >= 2 {
            lemma_tx_writes_of_byte(msg, (j - 2) / 2);
        }
    }
    assert forall|i: int| 0 <= i < msg.len() implies tx_writes(msg)[2 * i + 1].value
        == msg[i] as u32 by {
        lemma_tx_writes_of_byte(msg, i);
    }
}

/// Whenever a transmission asks for a write to TXD, that write carries the
/// next byte of the message, unchanged: byte `(sent - 1) / 2`.
pub proof fn lemma_tx_txd_write_carries_byte(v: TxView)
    requires
        tx_view_wf(v),
        tx_action(v) is Write,
        tx_action(v)->0.register == UartRegister::Txd,
    ensures
        v.sent % 2 == 1,
        0 <= (v.sent - 1) / 2 < v.msg.len(),
        tx_action(v)->0.value == v.msg[(v.sent - 1) / 2] as u32,
{
    lemma_tx_sends_message_unchanged(v.msg);
    lemma_tx_writes_shape(v.msg);
    let j = v.sent as int;
    assert(tx_writes(v.msg)[j].register == UartRegister::Txd);
    lemma_tx_writes_of_byte(v.msg, (j - 1) / 2);
}

/// The state reached from `v` by carrying out the actions asked for, one
/// after another, `reads.len()` times; at step `k`, `reads[k]` is the value
/// read from EVENTS_TXDRDY if that step polls.
pub open spec fn tx_run(v: TxView, reads: Seq<u32>) -> TxView
    decreases reads.len(),
{
    if reads.len() == 0 {
        v
    } else {
        tx_complete(tx_run(v, reads.drop_last()), reads.last())
    }
}

/// The register writes made along that run, in order.
pub open spec fn tx_run_writes(v: TxView, reads: Seq<u32>) -> Seq<RegisterWrite>
    decreases reads.len(),
{
    if reads.len() == 0 {
        Seq::empty()
    } else {
        tx_run_writes(v, reads.drop_last()) + match tx_action(tx_run(v, reads.drop_last())) {
            TxAction::Write(w) => seq![w],
            _ => Seq::empty(),
        }
    }
}

/// The states that a transmission can be in.
pub open spec fn tx_view_wf(v: TxView) -> bool {
    &&& v.sent <= 2 * v.msg.len() + 2
    &&& v.waiting ==> v.sent % 2 == 0 && 2 <= v.sent <= 2 * v.msg.len()
}

/// How many actions are left before a transmission in state `v` is finished,
/// when every poll finds TXDRDY raised: the writes still to make, plus one
/// poll for each byte not yet written to TXD, plus one if a poll is pending.
pub open spec fn tx_steps_left(v: TxView) -> nat {
    let n = v.msg.len() as int;
    let total = 2 * n + 2;
    let s = v.sent as int;
    if s >= total {
        0
    } else {
        ((total - s) + (if s / 2 >= n { 0 } else { n - s / 2 }) + (if v.waiting { 1int } else { 0 })) as nat
    }
}

/// A transmission that waits for TXDRDY asks for nothing but a poll; a poll
/// that reads 0 leaves it where it was, and one that reads anything else
/// ends the wait without making a write.
pub proof fn lemma_tx_waits_for_ready(v: TxView, read: u32)
    requires
        v.waiting,
    ensures
        tx_action(v) == TxAction::PollTxReady,
        read == 0 ==> tx_complete(v, read) == v,
        read != 0 ==> tx_complete(v, read) == (TxView { waiting: false, ..v }),
{
}

/// The next write of a transmission that does not wait goes to TXD exactly
/// when it sends a byte: at an odd position other than the last.
proof fn lemma_tx_next_write(v: TxView)
    requires
        tx_view_wf(v),
        !v.waiting,
        v.sent < 2 * v.msg.len() + 2,
    ensures
        tx_writes(v.msg)[v.sent as int].register == UartRegister::Txd <==> (v.sent % 2 == 1
            && v.sent < 2 * v.msg.len() + 1),
{
    lemma_tx_writes_shape(v.msg);
    let s = v.sent as int;
    if s % 2 == 1 && s < 2 * v.msg.len() + 1 {
        lemma_tx_writes_of_byte(v.msg, (s - 1) / 2);
    } else if s % 2 == 0 && s >= 2 {
        lemma_tx_writes_of_byte(v.msg, (s - 2) / 2);
    }
}

/// Every action keeps a transmission among its possible states, and makes
/// at most one write, the next one of the message's writes.
pub proof fn lemma_tx_step_wf(v: TxView, read: u32)
    requires
        tx_view_wf(v),
    ensures
        tx_view_wf(tx_complete(v, read)),
        tx_complete(v, read).msg == v.msg,
        tx_complete(v, read).sent == v.sent || tx_complete(v, read).sent == v.sent + 1,
{
    lemma_tx_writes_shape(v.msg);
    if !v.waiting && v.sent < 2 * v.msg.len() + 2 {
        lemma_tx_next_write(v);
    }
}

/// Starting from the beginning, whatever the polls read, the writes made so
/// far are exactly the first ones of the message's writes, in order.
pub proof fn lemma_tx_run_follows_protocol(msg: Seq<u8>, reads: Seq<u32>)
    ensures
        tx_view_wf(tx_run(tx_initial(msg), reads)),
        tx_run(tx_initial(msg), reads).msg == msg,
        tx_run_writes(tx_initial(msg), reads) == tx_writes(msg).take(
            tx_run(tx_initial(msg), reads).sent as int,
        ),
    decreases reads.len(),
{
    lemma_tx_writes_shape(msg);
    if reads.len() > 0 {
        let prev = reads.drop_last();
        lemma_tx_run_follows_protocol(msg, prev);
        let u = tx_run(tx_initial(msg), prev);
        lemma_tx_step_wf(u, reads.last());
        let w = tx_writes(msg);
        if !u.waiting && u.sent < w.len() {
            assert(w.take(u.sent as int).push(w[u.sent as int]) =~= w.take(u.sent + 1int));
        }
    } else {
        assert(tx_writes(msg).take(0) =~= Seq::<RegisterWrite>::empty());
    }
}

/// A write, or a poll that finds TXDRDY raised, brings an unfinished
/// transmission exactly one step nearer its end.
pub proof fn lemma_tx_step_progress(v: TxView, read: u32)
    requires
        tx_view_wf(v),
        tx_steps_left(v) > 0,
        v.waiting ==> read != 0,
    ensures
        tx_steps_left(tx_complete(v, read)) + 1 == tx_steps_left(v),
{
    lemma_tx_writes_shape(v.msg);
    if !v.waiting && v.sent < 2 * v.msg.len() + 2 {
        lemma_tx_next_write(v);
    }
}

/// Whether, along the run from `v` with `reads`, every step that polls finds
/// TXDRDY raised (what the steps that write are handed does not matter).
pub open spec fn tx_polls_all_ready(v: TxView, reads: Seq<u32>) -> bool {
    forall|k: int|
        0 <= k < reads.len() ==> (#[trigger] tx_run(v, reads.take(k))).waiting ==> reads[k] != 0
}

proof fn lemma_tx_run_counts_down(msg: Seq<u8>, reads: Seq<u32>)
    requires
        reads.len() <= 3 * msg.len() + 2,
        tx_polls_all_ready(tx_initial(msg), reads),
    ensures
        tx_steps_left(tx_run(tx_initial(msg), reads)) + reads.len() == 3 * msg.len() + 2,
    decreases reads.len(),
{
    if reads.len() > 0 {
        let prev = reads.drop_last();
        assert forall|k: int|
            0 <= k < prev.len() implies (#[trigger] tx_run(tx_initial(msg), prev.take(k))).waiting
            ==> prev[k] != 0 by {
            assert(prev.take(k) =~= reads.take(k));
            assert(prev[k] == reads[k]);
            assert(tx_run(tx_initial(msg), reads.take(k)).waiting ==> reads[k] != 0);
        }
        lemma_tx_run_counts_down(msg, prev);
        lemma_tx_run_follows_protocol(msg, prev);
        let u = tx_run(tx_initial(msg), prev);
        let last = (reads.len() - 1) as int;
        assert(reads.take(last) =~= prev);
        assert(tx_run(tx_initial(msg), reads.take(last)).waiting ==> reads[last] != 0);
        lemma_tx_step_progress(u, reads.last());
    }
}

/// When every poll finds TXDRDY raised, whatever the writes are handed, a
/// message of `n` bytes is sent in exactly `3n + 2` actions: after them the
/// transmission is finished and has made every one of the message's writes,
/// in order.
pub proof fn lemma_tx_run_completes(msg: Seq<u8>, reads: Seq<u32>)
    requires
        reads.len() == 3 * msg.len() + 2,
        tx_polls_all_ready(tx_initial(msg), reads),
    ensures
        tx_run(tx_initial(msg), reads) == (TxView {
            msg,
            sent: 2 * msg.len() + 2,
            waiting: false,
        }),
        tx_action(tx_run(tx_initial(msg), reads)) == TxAction::Finished,
        tx_run_writes(tx_initial(msg), reads) == tx_writes(msg),
{
    lemma_tx_run_counts_down(msg, reads);
    lemma_tx_run_follows_protocol(msg, reads);
    lemma_tx_writes_shape(msg);
    assert(tx_writes(msg).take(2 * msg.len() + 2int) =~= tx_writes(msg));
}

/// What a step that writes is handed does not matter.
pub proof fn lemma_tx_write_step_ignores_read(v: TxView, read1: u32, read2: u32)
    requires
        !v.waiting,
    ensures
        tx_complete(v, read1) == tx_complete(v, read2),
{
}

/// How many nonzero values `polls` holds.
pub open spec fn count_ready(polls: Seq<u32>) -> nat
    decreases polls.len(),
{
    if polls.len() == 0 {
        0
    } else {
        count_ready(polls.drop_first()) + if polls[0] != 0 { 1nat } else { 0nat }
    }
}

/// The state in which a driver stops that carries out the actions asked for
/// from `v`, with `polls` the values that its polls read, in order: when the
/// transmission is finished, or when it must poll and `polls` is used up.
pub open spec fn tx_drive(v: TxView, polls: Seq<u32>) -> TxView
    decreases polls.len(), tx_writes(v.msg).len() - v.sent,
{
    if v.waiting {
        if polls.len() == 0 {
            v
        } else {
            tx_drive(tx_complete(v, polls[0]), polls.drop_first())
        }
    } else if v.sent < tx_writes(v.msg).len() {
        tx_drive(tx_complete(v, 0), polls)
    } else {
        v
    }
}

/// The register writes that driver makes, in order.
pub open spec fn tx_drive_writes(v: TxView, polls: Seq<u32>) -> Seq<RegisterWrite>
    decreases polls.len(), tx_writes(v.msg).len() - v.sent,
{
    if v.waiting {
        if polls.len() == 0 {
            Seq::empty()
        } else {
            tx_drive_writes(tx_complete(v, polls[0]), polls.drop_first())
        }
    } else if v.sent < tx_writes(v.msg).len() {
        seq![tx_writes(v.msg)[v.sent as int]] + tx_drive_writes(tx_complete(v, 0), polls)
    } else {
        Seq::empty()
    }
}

/// How many polls that find TXDRDY raised a transmission in state `v` still
/// needs: one for each byte not yet written to TXD, and one if it waits.
pub open spec fn tx_polls_needed(v: TxView) -> nat {
    let n = v.msg.len() as int;
    let s = v.sent as int;
    ((if s / 2 >= n { 0 } else { n - s / 2 }) + (if v.waiting { 1int } else { 0 })) as nat
}

proof fn lemma_tx_drive_from(v: TxView, polls: Seq<u32>)
    requires
        tx_view_wf(v),
    ensures
        tx_view_wf(tx_drive(v, polls)),
        tx_drive(v, polls).msg == v.msg,
        v.sent <= tx_drive(v, polls).sent,
        tx_action(tx_drive(v, polls)) == TxAction::Finished <==> count_ready(polls)
            >= tx_polls_needed(v),
        tx_drive_writes(v, polls) == tx_writes(v.msg).subrange(
            v.sent as int,
            tx_drive(v, polls).sent as int,
        ),
    decreases polls.len(), tx_writes(v.msg).len() - v.sent,
{
    lemma_tx_writes_shape(v.msg);
    let w = tx_writes(v.msg);
    if v.waiting {
        if polls.len() > 0 {
            let u = tx_complete(v, polls[0]);
            lemma_tx_step_wf(v, polls[0]);
            lemma_tx_drive_from(u, polls.drop_first());
        } else {
            assert(w.subrange(v.sent as int, v.sent as int) =~= Seq::<RegisterWrite>::empty());
        }
    } else if v.sent < w.len() {
        let u = tx_complete(v, 0);
        lemma_tx_step_wf(v, 0);
        lemma_tx_next_write(v);
        lemma_tx_drive_from(u, polls);
        let d = tx_drive(u, polls);
        assert(seq![w[v.sent as int]] + w.subrange(v.sent + 1int, d.sent as int) =~= w.subrange(
            v.sent as int,
            d.sent as int,
        ));
    } else {
        assert(w.subrange(v.sent as int, v.sent as int) =~= Seq::<RegisterWrite>::empty());
    }
}

/// A driver that carries out every action asked for, reading `polls` in
/// order at its polls and handing anything to its writes, finishes sending a
/// message of `n` bytes exactly when at least `n` of those polls find TXDRDY
/// raised. Its writes are always the first ones of the message's writes, in
/// order, and all of them once it has finished.
pub proof fn lemma_tx_drive_finishes(msg: Seq<u8>, polls: Seq<u32>)
    ensures
        tx_action(tx_drive(tx_initial(msg), polls)) == TxAction::Finished <==> count_ready(polls)
            >= msg.len(),
        tx_drive_writes(tx_initial(msg), polls) == tx_writes(msg).take(
            tx_drive(tx_initial(msg), polls).sent as int,
        ),
        tx_action(tx_drive(tx_initial(msg), polls)) == TxAction::Finished ==> tx_drive_writes(
            tx_initial(msg),
            polls,
        ) == tx_writes(msg),
{
    lemma_tx_drive_from(tx_initial(msg), polls);
    lemma_tx_writes_shape(msg);
    let d = tx_drive(tx_initial(msg), polls);
    assert(tx_writes(msg).subrange(0, d.sent as int) =~= tx_writes(msg).take(d.sent as int));
    if tx_action(d) == TxAction::Finished {
        assert(tx_writes(msg).take(d.sent as int) =~= tx_writes(msg));
    }
}

} // verus!
