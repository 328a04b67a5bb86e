//! The one place the core reads the wall clock.

use std::time::SystemTime;
use std::time::UNIX_EPOCH;
use vstd::prelude::*;

verus! {

/// Relies on `SystemTime::now`: reads the wall clock once and converts it
/// to seconds since the Unix epoch. A clock set before the epoch reads as
/// zero, and one too far past it saturates, so the call returns on every
/// clock reading; nothing is promised of the value.
#[verifier::external_body]
pub(crate) fn now_epoch_seconds() -> i64 {
    match SystemTime::now().duration_since(UNIX_EPOCH) {
        Ok(d) => d.as_secs().min(i64::MAX as u64) as i64,
        Err(_) => 0,
    }
}

} // verus!
