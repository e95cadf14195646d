//! Wall-clock readings. Nothing is promised of the value: it is the time.

use vstd::prelude::*;

verus! {

/// Seconds since the Unix epoch, from `std::time::SystemTime::now`
/// (0 if the clock reads earlier than the epoch). The result is the time,
/// so no clause states it.
#[verifier::external_body]
pub(crate) fn get_timestamp() -> u64 {
    std::time::SystemTime::now().duration_since(std::time::UNIX_EPOCH).map(|d| d.as_secs()).unwrap_or(0)
}

/// Milliseconds since the Unix epoch, from `std::time::SystemTime::now`
/// (0 if the clock reads earlier than the epoch), truncated to `u64`.
/// The result is the time, so no clause states it.
#[verifier::external_body]
pub(crate) fn get_timestamp_ms() -> u64 {
    std::time::SystemTime::now().duration_since(std::time::UNIX_EPOCH).map(|d| d.as_millis() as u64).unwrap_or(0)
}

/// Nanoseconds since the Unix epoch, from `std::time::SystemTime::now`
/// (0 if the clock reads earlier than the epoch), truncated to `u64`.
/// The result is the time, so no clause states it.
#[verifier::external_body]
pub(crate) fn now_nanos() -> u64 {
    std::time::SystemTime::now().duration_since(std::time::UNIX_EPOCH).map(|d| d.as_nanos() as u64).unwrap_or(0)
}

} // verus!
