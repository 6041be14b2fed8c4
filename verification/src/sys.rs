//! Identifier and clock sources.
//!
//! Both draw on the process environment, so nothing is assumed about
//! their values beyond the shape of a rendered identifier; every store
//! operation that uses them states what holds of whatever they return.

use vstd::prelude::*;

verus! {

use crate::models::Millis;

/// Relies on `uuid::Uuid::new_v4` and its `Display` impl: a fresh random
/// version-4 identifier rendered in the 36-character hyphenated form.
/// Freshness is probabilistic, so no uniqueness is assumed; callers check
/// the store instead.
#[verifier::external_body]
pub(crate) fn fresh_id() -> (r: String)
    ensures
        r@.len() == 36,
{
    uuid::Uuid::new_v4().to_string()
}

/// Relies on `chrono::Utc::now` and `timestamp_millis`: the wall clock as
/// milliseconds since the Unix epoch. A clock reading before the epoch
/// aborts inside the outside call; beyond that the clock may move
/// arbitrarily between calls, so nothing is assumed of the value.
#[verifier::external_body]
pub(crate) fn now_millis() -> Millis {
    chrono::Utc::now().timestamp_millis()
}

} // verus!
