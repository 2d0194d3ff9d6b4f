//! The schedule of one prober: which record each finished probe becomes, and
//! when the next probe is due.
//!
//! Probes of one host are numbered from 0. Probe `seq` is followed by a sleep
//! until `(seq + 1)` cadences after the start of the monitor, so the time a
//! probe takes never shifts the ticks that follow.

use crate::consts::DELAY_TIME_MILLIS;
use crate::structs::PingResult;
use vstd::prelude::*;

verus! {

/// Milliseconds from the start of the monitor to the tick that follows probe
/// `seq`.
pub open spec fn tick_after(seq: nat) -> nat {
    (seq + 1) * (DELAY_TIME_MILLIS as nat)
}

/// State of the prober of one host: the host's number and the number of the
/// probe in flight.
#[derive(Debug, Clone, Copy, PartialEq, Eq, Structural)]
pub struct Prober {
    pub ip_id: usize,
    pub seq: usize,
}

/// What a finished probe asks of the program: hand `record` to the
/// aggregator, then sleep until `wake_at_millis` milliseconds after the start
/// of the monitor.
#[derive(Debug, Clone, Copy, PartialEq, Eq, Structural)]
pub struct ProbeStep {
    pub record: PingResult,
    pub wake_at_millis: u128,
}

impl Prober {
    /// The prober of host `ip_id`, about to send probe 0.
    pub fn new(ip_id: usize) -> (prober: Prober)
        ensures
            prober == (Prober { ip_id, seq: 0 }),
    {
        Prober { ip_id, seq: 0 }
    }

    /// No probe number is left after the one in flight.
    pub fn is_exhausted(&self) -> (exhausted: bool)
        ensures
            exhausted == (self.seq == usize::MAX),
    {
        self.seq == usize::MAX
    }

    /// Takes the outcome of the probe in flight: its round-trip time in whole
    /// milliseconds, or `None` for a probe that was lost or failed. The record
    /// carries the number of that probe; the prober moves on to the next
    /// number whatever the outcome was.
    pub fn finish_probe(&mut self, rtt: Option<u64>) -> (step: ProbeStep)
        requires
            old(self).seq < usize::MAX,
        ensures
            step.record == (PingResult { ip_id: old(self).ip_id, seq: old(self).seq, rtt }),
            step.wake_at_millis == tick_after(old(self).seq as nat),
            final(self).ip_id == old(self).ip_id,
            final(self).seq == old(self).seq + 1,
    {
        let record = PingResult { ip_id: self.ip_id, seq: self.seq, rtt };
        let wake_at_millis = next_tick_millis(self.seq);
        self.seq = self.seq + 1;
        ProbeStep { record, wake_at_millis }
    }
}

/// Milliseconds from the start of the monitor to the tick that follows probe
/// `seq`.
pub fn next_tick_millis(seq: usize) -> (millis: u128)
    ensures
        millis == tick_after(seq as nat),
{
    assert((seq + 1) * (DELAY_TIME_MILLIS as nat) <= (usize::MAX + 1) * 500) by (nonlinear_arith)
        requires
            seq <= usize::MAX,
            DELAY_TIME_MILLIS == 500,
    ;
    (seq as u128 + 1) * (DELAY_TIME_MILLIS as u128)
}

/// The ticks of a prober are one cadence apart, whatever the probes took.
pub proof fn lemma_ticks_are_evenly_spaced(seq: nat)
    ensures
        tick_after(seq + 1) - tick_after(seq) == DELAY_TIME_MILLIS,
        tick_after(0) == DELAY_TIME_MILLIS,
{
    assert((seq + 2) * (DELAY_TIME_MILLIS as nat) - (seq + 1) * (DELAY_TIME_MILLIS as nat)
        == DELAY_TIME_MILLIS as nat) by (nonlinear_arith);
}

} // verus!
