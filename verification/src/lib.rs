//! A scheduling engine for recurring and one-off device push jobs.
//!
//! The library models tasks with three kinds of schedule descriptor
//! (a fixed instant, a fixed interval, or a cron-like expression),
//! expands them into concrete occurrences inside one calendar day,
//! merges the occurrences of all tasks into a single conflict-free
//! planned queue under a total priority order, and drives a
//! one-tick-per-second dispatch loop with at-most-one execution per
//! second and exactly-once bookkeeping.

use vstd::prelude::*;

pub mod arbiter;
pub mod bridge;
pub mod dispatch;
pub mod expand;
pub mod laws;
pub mod macros;
pub mod manager;
pub mod model;
pub mod payload;
pub mod plan;
pub mod strutil;
pub mod timefmt;

verus! {

/// The default on-device occupancy of one firing, in seconds, used when a
/// task does not give a positive duration of its own.
pub const DEFAULT_DURATION_SEC: u32 = 5;

/// The effective duration of one firing: the task's own positive duration,
/// or the default when the task gives none (or gives zero).
pub fn effective_duration(duration_sec: Option<u32>) -> (r: u32)
    ensures
        r == spec_effective_duration(duration_sec),
        r > 0,
{
    match duration_sec {
        Some(d) if d > 0 => d,
        _ => DEFAULT_DURATION_SEC,
    }
}

/// What `effective_duration` returns.
pub open spec fn spec_effective_duration(duration_sec: Option<u32>) -> u32 {
    match duration_sec {
        Some(d) => if d > 0 { d } else { DEFAULT_DURATION_SEC },
        None => DEFAULT_DURATION_SEC,
    }
}

} // verus!
