//! The calls this library makes into outside crates.

use vstd::prelude::*;

verus! {

/// Relies on `uuid::Uuid::new_v4`: a random version-4 identifier, as its
/// 128-bit value. Nothing is promised of the value.
#[verifier::external_body]
pub(crate) fn fresh_uuid() -> (r: u128) {
    uuid::Uuid::new_v4().as_u128()
}

/// Relies on `chrono::Utc::now` and `DateTime::timestamp_millis`: the
/// current time in milliseconds since the epoch. Nothing is promised of it.
#[verifier::external_body]
pub(crate) fn now_millis() -> (r: i64) {
    chrono::Utc::now().timestamp_millis()
}

} // verus!
