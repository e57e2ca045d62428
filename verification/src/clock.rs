//! Readings of the system clock, counted from the Unix epoch.

use vstd::prelude::*;

use crate::trusted::{duration_as_nanos, duration_as_secs, duration_since_unix_epoch, system_time_now};

verus! {

/// Whole seconds since the Unix epoch, or the clock's error where it reads
/// earlier than the epoch.
pub(crate) fn current_unix_time() -> Result<u64, std::time::SystemTimeError> {
    let now = system_time_now();
    match duration_since_unix_epoch(&now) {
        Ok(elapsed) => Ok(duration_as_secs(&elapsed)),
        Err(e) => Err(e),
    }
}

/// Nanoseconds since the Unix epoch, or the clock's error where it reads
/// earlier than the epoch.
pub(crate) fn current_unix_nanos() -> Result<u128, std::time::SystemTimeError> {
    let now = system_time_now();
    match duration_since_unix_epoch(&now) {
        Ok(elapsed) => Ok(duration_as_nanos(&elapsed)),
        Err(e) => Err(e),
    }
}

} // verus!
