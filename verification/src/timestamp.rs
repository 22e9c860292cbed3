//! Wall-clock access for timestamping last-writer-wins fields and audit
//! records.

use vstd::prelude::*;

verus! {

/// Seconds since the Unix epoch, or 0 if the clock reports a time before it.
///
/// Relies on `std::time::SystemTime::now`: the wall clock may move in either
/// direction between calls, so nothing is promised of the returned value.
#[verifier::external_body]
pub fn get_timestamp() -> u64 {
    std::time::SystemTime::now().duration_since(std::time::SystemTime::UNIX_EPOCH).unwrap_or(
        std::time::Duration::ZERO,
    ).as_secs()
}

} // verus!
