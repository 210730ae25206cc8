//! The firmware's idle loop: a counter that reports once every
//! `HEARTBEAT_PERIOD` iterations (about one second on the board).

use vstd::prelude::*;

verus! {

/// Number of idle-loop iterations between two heartbeat reports.
pub const HEARTBEAT_PERIOD: i32 = 600000;

/// One iteration of the idle loop, on the counter's value before it:
/// the counter after the iteration, and whether the iteration reports.
pub open spec fn spec_tick(time: int) -> (int, bool) {
    if time % (HEARTBEAT_PERIOD as int) == 0 {
        (1, true)
    } else {
        (time + 1, false)
    }
}

/// The counter's value before iteration `k` of a loop that started at 0.
pub open spec fn counter_before(k: nat) -> int
    decreases k,
{
    if k == 0 {
        0
    } else {
        spec_tick(counter_before((k - 1) as nat)).0
    }
}

/// Whether iteration `k` of a loop that started at 0 reports.
pub open spec fn reports_at(k: nat) -> bool {
    spec_tick(counter_before(k)).1
}

/// The idle-loop counter. It stays within `0..=HEARTBEAT_PERIOD`.
pub struct Heartbeat {
    time: i32,
}

impl View for Heartbeat {
    type V = int;

    closed spec fn view(&self) -> int {
        self.time as int
    }
}

impl Heartbeat {
    #[verifier::type_invariant]
    spec fn in_range(self) -> bool {
        0 <= self.time <= HEARTBEAT_PERIOD
    }

    /// A counter at the start of the loop.
    pub fn new() -> (h: Self)
        ensures
            h@ == 0,
    {
        Heartbeat { time: 0 }
    }

    /// Runs one iteration of the idle loop; returns whether it reports.
    pub fn tick(&mut self) -> (report: bool)
        ensures
            (final(self)@, report) == spec_tick(old(self)@),
            1 <= final(self)@ <= HEARTBEAT_PERIOD,
    {
        proof {
            use_type_invariant(&*self);
        }
        if self.time % HEARTBEAT_PERIOD == 0 {
            self.time = 1;
            true
        } else {
            self.time = self.time + 1;
            false
        }
    }
}

/// Starting from 0, the counter before iteration `k` is `0` for the first
/// iteration and `(k - 1) % HEARTBEAT_PERIOD + 1` after that: it never leaves
/// `0..=HEARTBEAT_PERIOD`.
pub proof fn lemma_counter_before(k: nat)
    ensures
        counter_before(k) == if k == 0 { 0 } else { (k - 1) % (HEARTBEAT_PERIOD as int) + 1 },
        0 <= counter_before(k) <= HEARTBEAT_PERIOD,
    decreases k,
{
    if k > 0 {
        lemma_counter_before((k - 1) as nat);
    }
}

/// Starting from 0, iteration `k` reports exactly when `k` is a multiple of
/// `HEARTBEAT_PERIOD`: the first iteration, then once every period.
pub proof fn lemma_reports_every_period(k: nat)
    ensures
        reports_at(k) <==> (k as int) % (HEARTBEAT_PERIOD as int) == 0,
{
    lemma_counter_before(k);
}

} // verus!
