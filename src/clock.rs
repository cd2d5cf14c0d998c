//! The calls that depend on the machine: the current time and fresh random
//! identifiers. Everything that uses them also exists in a form that takes the
//! value as an argument.

use vstd::prelude::*;

verus! {

/// Relies on `chrono::Utc::now` and `DateTime::timestamp_millis`: the current
/// time in milliseconds since the Unix epoch. `Utc::now` panics on a clock set
/// before the epoch, so a returned value is never negative.
#[verifier::external_body]
pub(crate) fn now_millis() -> (r: i64)
    ensures
        r >= 0,
{
    chrono::Utc::now().timestamp_millis()
}

/// Relies on `uuid::Uuid::new_v4` and its `Display`: a random identifier in
/// hyphenated form.
#[verifier::external_body]
pub(crate) fn random_id() -> (r: String) {
    uuid::Uuid::new_v4().to_string()
}

} // verus!
