//! The wall clock.
use vstd::prelude::*;

verus! {

/// Seconds since the Unix epoch now (`SystemTime::now().duration_since(UNIX_EPOCH)`,
/// 0 where the clock is before the epoch). Trusted; nothing is claimed of the value.
#[verifier::external_body]
pub(crate) fn unix_time_secs() -> u64 {
    std::time::SystemTime::now()
        .duration_since(std::time::UNIX_EPOCH)
        .unwrap_or_default()
        .as_secs()
}

} // verus!
