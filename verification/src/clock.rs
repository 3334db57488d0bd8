//! Access to the wall clock.
//!
//! Verified code takes timestamps as plain parameters wherever the result
//! must be reproducible; this wrapper exists for the outermost entry points
//! that stamp new values with the current time.

use vstd::prelude::*;

verus! {

/// Relies on `chrono::Utc::now` and `DateTime::timestamp`: the current wall
/// clock as whole seconds since the Unix epoch. Nothing is promised of the
/// value; callers treat each reading independently.
#[verifier::external_body]
pub fn now_epoch_seconds() -> i64 {
    chrono::Utc::now().timestamp()
}

} // verus!
