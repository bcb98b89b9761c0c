//! Whole-second time arithmetic with the crate's clock-regression policy:
//! whenever the reference instant lies before the queried instant, the
//! elapsed time counts as zero, so a clock that jumps backwards never makes
//! anything look old.

use vstd::prelude::*;

verus! {

/// Seconds elapsed from `t` to `now`; zero when `t` lies in the future.
pub open spec fn age_secs(now: u64, t: u64) -> int {
    if now >= t {
        now - t
    } else {
        0
    }
}

/// Executable counterpart of [`age_secs`].
pub fn elapsed_secs(now: u64, t: u64) -> (r: u64)
    ensures
        r == age_secs(now, t),
{
    if now >= t {
        now - t
    } else {
        0
    }
}

} // verus!
