//! The time of day.

use vstd::prelude::*;

verus! {

/// Calls `SystemTime::elapsed` on the UNIX epoch: the time since then as whole seconds and the
/// nanoseconds beyond them, or nothing if the clock stands before the epoch. All that is claimed
/// is that the nanoseconds make less than a second; the time itself is the machine's.
#[verifier::external_body]
fn since_epoch() -> (elapsed: Option<(u64, u32)>)
    ensures
        elapsed matches Some((_, nanos)) ==> nanos < 1_000_000_000,
{
    match std::time::UNIX_EPOCH.elapsed() {
        Ok(elapsed) => Some((elapsed.as_secs(), elapsed.subsec_nanos())),
        Err(_) => None,
    }
}

/// The whole seconds of a time since the epoch.
pub fn whole_seconds(elapsed: Option<(u64, u32)>) -> (timestamp: Option<u64>)
    ensures
        timestamp == match elapsed {
            Some((secs, _)) => Some(secs),
            None => None,
        },
{
    match elapsed {
        Some((secs, _)) => Some(secs),
        None => None,
    }
}

/// The current UNIX time in seconds, or nothing if the clock stands before the epoch.
///
/// What it returns is the machine's time, of which nothing can be stated.
pub fn current_timestamp() -> (timestamp: Option<u64>) {
    whole_seconds(since_epoch())
}

} // verus!
