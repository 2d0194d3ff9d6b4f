//! The values that travel between the parts of the monitor.

use vstd::prelude::*;

verus! {

/// Outcome of one probe of one host. `rtt` is the round-trip time in whole
/// milliseconds, `None` when the probe was lost.
#[derive(Debug, Clone, Copy, PartialEq, Eq, Structural)]
pub struct PingResult {
    pub ip_id: usize,
    pub seq: usize,
    pub rtt: Option<u64>,
}

/// One time slot of the rolling window: every round-trip time, in whole
/// milliseconds, that was measured at tick `seq`, whichever host it came from.
/// A slot without samples is a placeholder and stands for no tick.
#[derive(Debug)]
pub struct PingResultNoIP {
    pub seq: usize,
    pub rtt_arr: Vec<u64>,
}

/// Mathematical value of a time slot.
pub struct SlotView {
    pub seq: usize,
    pub samples: Seq<u64>,
}

impl View for PingResultNoIP {
    type V = SlotView;

    open spec fn view(&self) -> SlotView {
        SlotView { seq: self.seq, samples: self.rtt_arr@ }
    }
}

/// Size of the plotting area, in character cells.
#[derive(Debug, Clone, Copy, PartialEq, Eq, Structural)]
pub struct AppConfig {
    pub term_width: u32,
    pub term_height: u32,
}

} // verus!
