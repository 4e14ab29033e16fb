//! The calls that read the clock.

use vstd::prelude::*;

verus! {

/// `std::time::Instant`, a point of the monotonic clock; opaque to proofs.
#[verifier::external_type_specification]
#[verifier::external_body]
pub struct ExInstant(std::time::Instant);

/// Calls `std::time::Instant::now`. The clock's reading is not stated.
#[verifier::external_body]
pub(crate) fn instant_now() -> std::time::Instant {
    std::time::Instant::now()
}

/// Calls `std::time::Instant::elapsed` and gives the whole milliseconds, cut to
/// 64 bits. How much time has passed is not stated.
#[verifier::external_body]
pub(crate) fn elapsed_millis(since: &std::time::Instant) -> u64 {
    since.elapsed().as_millis() as u64
}

/// Calls `std::time::Instant::checked_add` with whole milliseconds: `None`
/// where the sum lies beyond what the clock can hold. Which instant comes out
/// is not stated.
#[verifier::external_body]
pub(crate) fn instant_after_millis(at: &std::time::Instant, ms: u64) -> Option<std::time::Instant> {
    at.checked_add(std::time::Duration::from_millis(ms))
}

/// Calls `std::time::SystemTime::now` and `duration_since(UNIX_EPOCH)`, and
/// gives the whole milliseconds since the epoch cut to 64 bits, or `None`
/// where the system clock stands before 1970. The reading is not stated.
#[verifier::external_body]
pub(crate) fn millis_since_unix_epoch() -> Option<u64> {
    match std::time::SystemTime::now().duration_since(std::time::UNIX_EPOCH) {
        Ok(elapsed) => Some(elapsed.as_millis() as u64),
        Err(_) => None,
    }
}

} // verus!
