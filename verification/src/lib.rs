//! Silence-alert monitoring core.
//!
//! Watches a set of momentary-contact inputs and decides when an input has
//! been held ("silent") past a configured threshold, when ongoing-silence
//! alerts are due, and what notification text each event produces. The
//! hardware, clock and mail transport live outside this crate: callers hand
//! in plain values (input identifiers, times in seconds) and take plain
//! notifications back.

use vstd::prelude::*;

pub mod conf;
pub mod dispatch;
pub mod monitor;
pub mod names;
pub mod notify;
pub mod registry;
pub mod scanner;
pub mod text;

pub use text::format_duration;
pub use text::format_timestamp;

verus! {

/// The capacity the dispatcher queue is created with: enough pending
/// notifications that a slow transport never stalls the monitors.
pub const QUEUE_CAPACITY: usize = 100;

/// The scanner's period in seconds: each tick sweeps the registry once.
pub const SCAN_PERIOD_SECS: u64 = 1;

} // verus!
