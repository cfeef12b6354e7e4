//! Points in time, as far as backups need them.
use vstd::prelude::*;

verus! {

/// A point in time: its distance from the beginning of 1970 in whole seconds,
/// and on which side of it the point lies. The beginning itself lies after.
#[derive(Clone, Copy, Debug, PartialEq, Eq, Structural)]
pub struct Moment {
    pub before_epoch: bool,
    pub seconds: u64,
}

/// The seconds since the beginning of 1970; none before it.
pub open spec fn seconds_since(time: Moment) -> Option<u64> {
    if time.before_epoch {
        None
    } else {
        Some(time.seconds)
    }
}

/// Counts the seconds since the beginning of 1970.
pub fn system_time_to_seconds(time: Moment) -> (r: Option<u64>)
    ensures
        r == seconds_since(time),
{
    if time.before_epoch {
        None
    } else {
        Some(time.seconds)
    }
}

/// The number that marks a backup made at the given time: the seconds since
/// the beginning of 1970, or 0 before it.
pub fn unix_timestamp(now: Moment) -> (r: u64)
    ensures
        r == match seconds_since(now) {
            Some(n) => n,
            None => 0,
        },
{
    match system_time_to_seconds(now) {
        Some(n) => n,
        None => 0,
    }
}

} // verus!
