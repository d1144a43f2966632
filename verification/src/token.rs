//! What the service takes from outside itself: fresh secrets and the time.

use vstd::prelude::*;

verus! {

/// Calls `uuid::Uuid::new_v4` and writes the identifier out with
/// `to_string`. Which identifier comes is left open; written out, every one is
/// 36 characters long (32 hexadecimal digits and four hyphens).
#[verifier::external_body]
pub(crate) fn new_secret() -> (secret: String)
    ensures
        secret@.len() == 36,
{
    uuid::Uuid::new_v4().to_string()
}

/// Calls `chrono::Utc::now` and takes the time as `timestamp_millis` gives
/// it: milliseconds since the Unix epoch. Nothing is claimed of the value.
/// `Utc::now` stops the program where the system clock reads a time before
/// 1970.
#[verifier::external_body]
pub(crate) fn now_millis() -> (now: i64) {
    chrono::Utc::now().timestamp_millis()
}

} // verus!
