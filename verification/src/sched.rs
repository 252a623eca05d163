//! Tick cadence: how long to sleep after a tick's work.

use vstd::prelude::*;

verus! {

/// Nanoseconds in the one-second target period between ticks.
pub const PERIOD_NANOS: u64 = 1_000_000_000;

/// Given the nanoseconds a tick's sampling and emission took, returns how
/// long to sleep so that ticks stay one period apart: the remainder of the
/// period if any of it is left, and `None` (no sleep at all) if the work
/// already consumed the whole period.
pub fn sleep_nanos(elapsed_nanos: u64) -> (r: Option<u64>)
    ensures
        elapsed_nanos >= PERIOD_NANOS ==> r is None,
        elapsed_nanos < PERIOD_NANOS ==> r == Some((PERIOD_NANOS - elapsed_nanos) as u64),
        r matches Some(d) ==> d + elapsed_nanos == PERIOD_NANOS,
{
    if elapsed_nanos < PERIOD_NANOS {
        Some(PERIOD_NANOS - elapsed_nanos)
    } else {
        None
    }
}

} // verus!
