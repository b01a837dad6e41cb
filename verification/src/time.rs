//! The clock.

use vstd::prelude::*;

verus! {

/// Seconds since the UNIX epoch, read from the system clock
/// (`SystemTime::now` and `duration_since`); 0 where the clock stands before
/// the epoch. Nothing is stated of the value: it is the time.
#[verifier::external_body]
pub(crate) fn since_epoch_secs() -> u64 {
    match std::time::SystemTime::now().duration_since(std::time::UNIX_EPOCH) {
        Ok(d) => d.as_secs(),
        Err(_) => 0,
    }
}

} // verus!
