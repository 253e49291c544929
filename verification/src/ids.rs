//! Fresh identifiers and clock readings.
//!
//! These results depend on chance and on the clock, so nothing is promised of
//! them beyond their type.

use vstd::prelude::*;

verus! {

/// A fresh random identifier: `uuid::Uuid::new_v4()` in its text form, which
/// `uuid` writes as 32 lowercase hex digits in five hyphenated groups. Only its
/// length is stated: the digits are random.
#[verifier::external_body]
pub(crate) fn new_id() -> (r: String)
    ensures
        r@.len() == 36,
{
    uuid::Uuid::new_v4().to_string()
}

/// The current UTC time as RFC 3339 text, read with
/// `chrono::Utc::now().to_rfc3339()`. Nothing is stated of it: it is the clock.
#[verifier::external_body]
pub(crate) fn now_rfc3339() -> (r: String) {
    chrono::Utc::now().to_rfc3339()
}

} // verus!
