//! Fixed configuration of the monitor.

use vstd::prelude::*;

verus! {

/// Number of time slots in the rolling window.
pub const TIMESERIES_LENGTH: usize = 100;

/// Time between two probes of one host, in milliseconds.
pub const DELAY_TIME_MILLIS: u64 = 500;

/// Terminal rows kept free below and above the plot.
pub const BOTTOM_MARGIN: u32 = 5;

/// Terminal columns kept free beside the plot.
pub const RIGHT_MARGIN: u32 = 10;

/// Time between two polls of the terminal size, in milliseconds.
pub const TERMINAL_POLL_MILLIS: u64 = 200;

/// Capacity of each queue between two parts of the monitor.
pub const QUEUE_CAPACITY: usize = 32;

/// Number of samples the smoothing of the plotted series looks back on.
pub const SMOOTHING_WINDOW: u8 = 5;

} // verus!
