//! Time and rate-limit arithmetic shared by the scanner and the dispatcher.
//!
//! The remote service reports its rate limit as a Unix epoch second at which
//! the limit resets; both tasks honour it until one second past that mark.

use vstd::prelude::*;

verus! {

/// The local deadline derived from a reported reset epoch-second: exactly one
/// second past the reset, never earlier.
pub fn next_deadline(reset: u64) -> (deadline: u64)
    requires
        reset < u64::MAX,
    ensures
        deadline == reset + 1,
{
    reset + 1
}

/// How many seconds to sleep, measured from the Unix second `now`, to reach
/// the Unix second `until`: zero when the mark has already passed.
pub fn wait_seconds(until: u64, now: u64) -> (wait: u64)
    ensures
        until > now ==> wait == until - now,
        until <= now ==> wait == 0,
{
    if until > now {
        until - now
    } else {
        0
    }
}

/// Converts a monotonic-clock reading to a Unix epoch second, given one
/// simultaneous reading of both clocks: `t_mono` and `now_mono` are seconds of
/// the monotonic clock, `now_epoch` is the Unix second observed at
/// `now_mono`.
///
/// A reading that would land before the Unix epoch has no representation and
/// is excluded, as is one past the end of the 64-bit range.
pub fn instant_to_epoch(t_mono: u64, now_mono: u64, now_epoch: u64) -> (epoch: u64)
    requires
        t_mono > now_mono ==> now_epoch + (t_mono - now_mono) <= u64::MAX,
        t_mono <= now_mono ==> now_mono - t_mono <= now_epoch,
    ensures
        t_mono > now_mono ==> epoch == now_epoch + (t_mono - now_mono),
        t_mono <= now_mono ==> epoch == now_epoch - (now_mono - t_mono),
{
    if t_mono > now_mono {
        now_epoch + (t_mono - now_mono)
    } else {
        now_epoch - (now_mono - t_mono)
    }
}

} // verus!
