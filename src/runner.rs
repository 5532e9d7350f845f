//! The decisions of a reactor thread's loop: when to leave it, and how long to
//! sleep after a turn that came back early.

use vstd::prelude::*;

verus! {

/// The shutdown flag's value while the reactor thread is to keep turning.
pub const RUNNING: usize = 0;

/// The shutdown flag's value once the reactor thread is to leave its loop.
pub const SHUTDOWN_NOW: usize = 1;

/// The length of a poll interval of `wait_ms` milliseconds, in nanoseconds.
pub open spec fn interval_nanos(wait_ms: u32) -> int {
    wait_ms * 1_000_000
}

/// Whether a reactor thread that read `state` from its shutdown flag leaves
/// its loop.
pub fn shutdown_requested(state: usize) -> (r: bool)
    ensures
        r == (state > RUNNING),
{
    state > RUNNING
}

/// How long to sleep after an iteration that took `elapsed_nanos`, so that
/// iterations start at most once per poll interval of `wait_ms` milliseconds:
/// the rest of the interval, or `None` once it has passed.
pub fn pause_after_turn(wait_ms: u32, elapsed_nanos: u128) -> (r: Option<u64>)
    ensures
        r == (if elapsed_nanos < interval_nanos(wait_ms) {
            Some((interval_nanos(wait_ms) - elapsed_nanos) as u64)
        } else {
            None::<u64>
        }),
        r matches Some(n) ==> 0 < n && n + elapsed_nanos == interval_nanos(wait_ms),
{
    let interval: u64 = wait_ms as u64 * 1_000_000;
    if elapsed_nanos < interval as u128 {
        Some(interval - elapsed_nanos as u64)
    } else {
        None
    }
}

} // verus!
