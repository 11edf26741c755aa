//! The one clock call the gateway makes.

use vstd::prelude::*;

verus! {

/// Relies on `chrono::Utc::now` and `chrono::DateTime::to_rfc3339`: the
/// current UTC time as an ISO-8601 string. The clock is outside the model,
/// so nothing is promised of the value; every caller states what holds of
/// the store whatever string came back.
#[verifier::external_body]
pub(crate) fn now_rfc3339() -> String {
    chrono::Utc::now().to_rfc3339()
}

} // verus!
