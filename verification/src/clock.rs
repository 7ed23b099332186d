//! Deadlines, counted in milliseconds.

use vstd::prelude::*;

verus! {

/// The time a wait after `now`. Time has an end, and nothing is due beyond it.
pub open spec fn later(now: u64, wait: u64) -> u64 {
    if now + wait <= u64::MAX {
        (now + wait) as u64
    } else {
        u64::MAX
    }
}

pub fn after(now: u64, wait: u64) -> (due: u64)
    ensures
        due == later(now, wait),
{
    if wait <= u64::MAX - now {
        now + wait
    } else {
        u64::MAX
    }
}

/// A wait is counted from now. Only at the very end of time is it cut short.
pub proof fn law_a_wait_is_counted_from_now(now: u64, wait: u64)
    ensures
        now + wait <= u64::MAX ==> later(now, wait) == now + wait,
        now + wait > u64::MAX ==> later(now, wait) == u64::MAX,
        later(now, wait) >= now,
{
}

} // verus!
