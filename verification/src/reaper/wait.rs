//! Waiting for consumers to release a frame: the deadline of one bounded
//! wait, so that a cancelled reaper is noticed in time.

use vstd::prelude::*;

verus! {

/// How long one wait for release handles may block before the reaper looks
/// for cancellation again, in nanoseconds.
pub const CANCEL_POLL_INTERVAL_NS: i64 = 250_000_000;

/// The absolute monotonic deadline `after_ns` nanoseconds after the clock
/// read `sec` seconds and `nsec` nanoseconds, in nanoseconds; `None` when it
/// does not fit in an `i64`.
pub fn deadline_ns(sec: i64, nsec: i64, after_ns: i64) -> (r: Option<i64>)
    ensures
        ({
            let now = sec * 1_000_000_000 + nsec;
            let total = now + after_ns;
            let fits = i64::MIN <= sec * 1_000_000_000 <= i64::MAX && i64::MIN <= now <= i64::MAX
                && i64::MIN <= total <= i64::MAX;
            &&& fits ==> r == Some(total as i64)
            &&& !fits ==> r is None
        }),
{
    let seconds = match sec.checked_mul(1_000_000_000) {
        Some(v) => v,
        None => return None,
    };
    let now = match seconds.checked_add(nsec) {
        Some(v) => v,
        None => return None,
    };
    now.checked_add(after_ns)
}

} // verus!
