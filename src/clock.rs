//! The wall clock.

use vstd::prelude::*;

verus! {

/// Relies on `SystemTime::elapsed` on the Unix epoch: the milliseconds
/// since the epoch, `0` for a clock set before it. Nothing is promised of
/// the value.
#[verifier::external_body]
pub fn wall_clock_ms() -> u128 {
    match std::time::UNIX_EPOCH.elapsed() {
        Ok(d) => d.as_millis(),
        Err(_) => 0,
    }
}

} // verus!
