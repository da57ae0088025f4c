//! When the accounts are asked for again.

use crate::clock::{secs, Duration, NANOS_PER_MILLI};
use vstd::prelude::*;

verus! {

/// No sleep is longer than this: a change of the period is seen soon.
pub const SLICE_MILLIS: u64 = 200;

/// The period between two refreshes: at least a second.
pub fn refresh_period(refresh_balance_secs: u64) -> (r: Duration)
    ensures
        r.nanos == secs(
            if refresh_balance_secs < 1 {
                1
            } else {
                refresh_balance_secs as int
            },
        ),
{
    if refresh_balance_secs < 1 {
        Duration::from_secs(1)
    } else {
        Duration::from_secs(refresh_balance_secs)
    }
}

/// How long to sleep before looking again; none when the accounts are due or the
/// period was changed.
pub fn next_slice(period: Duration, want: Duration, elapsed: Duration) -> (r: Option<Duration>)
    ensures
        match r {
            None => want.nanos != period.nanos || elapsed.nanos >= period.nanos,
            Some(d) => {
                let left = period.nanos - elapsed.nanos;
                &&& want.nanos == period.nanos
                &&& left > 0
                &&& d.nanos == (if left < SLICE_MILLIS * NANOS_PER_MILLI {
                    left
                } else {
                    SLICE_MILLIS * NANOS_PER_MILLI
                })
            },
        },
{
    if want.nanos != period.nanos || elapsed.nanos >= period.nanos {
        return None;
    }
    let left: u128 = period.nanos - elapsed.nanos;
    let slice = Duration::from_millis(SLICE_MILLIS);
    if left < slice.nanos {
        Some(Duration { nanos: left })
    } else {
        Some(slice)
    }
}

} // verus!
