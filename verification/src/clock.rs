//! The wall clock.

use vstd::prelude::*;

verus! {

/// `SystemTime::elapsed` since the Unix epoch, in whole seconds; 0 where the clock stands
/// before the epoch. Nothing is claimed of the result: it is what the clock says.
#[verifier::external_body]
pub(crate) fn unix_seconds() -> (seconds: u64) {
    std::time::UNIX_EPOCH.elapsed().unwrap_or_default().as_secs()
}

} // verus!
