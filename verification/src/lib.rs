//! Live round-trip-time monitor for a fixed set of hosts: the rolling window
//! that folds probe results into time slots, the per-host probe schedule, the
//! statistics shown above the plot and the plotting area derived from the
//! terminal size.
//!
//! Everything here is pure computation on plain values. Sockets, timers,
//! queues and the terminal belong to the program built around this library.

pub mod console_func;
pub mod consts;
pub mod func;
pub mod graph_writer;
pub mod ping_processor;
pub mod pinger;
pub mod ring;
pub mod structs;
pub mod window_model;
