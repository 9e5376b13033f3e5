//! The wall clock, read through the `time` crate.

use vstd::prelude::*;

verus! {

/// Relies on `time::OffsetDateTime::now_utc` and `OffsetDateTime::unix_timestamp`:
/// the current time as whole seconds since the Unix epoch. The value depends
/// on the moment of the call, so nothing is promised of it.
#[verifier::external_body]
pub(crate) fn now_unix_seconds() -> (r: i64) {
    time::OffsetDateTime::now_utc().unix_timestamp()
}

} // verus!
