//! Wall-clock time as whole unix seconds.
use vstd::prelude::*;

verus! {

/// A point in wall-clock time; carried from one call to the next unread.
#[verifier::external_type_specification]
#[verifier::external_body]
pub struct ExSystemTime(std::time::SystemTime);

/// `std::time::SystemTime::now`: the current wall-clock time. Nothing is said
/// of it.
#[verifier::external_body]
fn system_now() -> std::time::SystemTime {
    std::time::SystemTime::now()
}

/// `std::time::SystemTime::duration_since` the unix epoch, in whole seconds;
/// `None` for a time before the epoch. Nothing is said of the value, which is
/// as open as the time it is read from.
#[verifier::external_body]
fn since_epoch(t: std::time::SystemTime) -> Option<u64> {
    match t.duration_since(std::time::UNIX_EPOCH) {
        Ok(d) => Some(d.as_secs()),
        Err(_) => None,
    }
}

/// Whole unix seconds of the time elapsed since the epoch; 0 before it.
pub open spec fn secs_of(since: Option<u64>) -> i64 {
    match since {
        Some(s) => s as i64,
        None => 0i64,
    }
}

/// Unix seconds from the time elapsed since the epoch; a clock before the
/// epoch reads as 0.
pub fn unix_secs(since: Option<u64>) -> (r: i64)
    ensures
        r == secs_of(since),
{
    match since {
        Some(s) => s as i64,
        None => 0,
    }
}

/// Current unix wall-clock seconds.
pub fn now_unix() -> (r: i64)
    ensures
        exists|since: Option<u64>| r == secs_of(since),
{
    let t = system_now();
    let since = since_epoch(t);
    unix_secs(since)
}

} // verus!
