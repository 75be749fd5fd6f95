use vstd::prelude::*;

verus! {

/// Relies on chrono::Utc::now: milliseconds since the Unix epoch.  The value
/// comes from the system clock; nothing is assumed about it.
#[verifier::external_body]
pub fn now_ms() -> i64 {
    chrono::Utc::now().timestamp_millis()
}

/// Relies on chrono::Utc::now: the current instant formatted as RFC 3339.
/// The value comes from the system clock; nothing is assumed about it.
#[verifier::external_body]
pub fn now_rfc3339() -> String {
    chrono::Utc::now().to_rfc3339()
}

/// Relies on uuid::Uuid::new_v4: a fresh random identifier in the hyphenated
/// form, which is documented to be 36 characters long.
#[verifier::external_body]
pub fn new_uuid() -> (r: String)
    ensures
        r@.len() == 36,
{
    uuid::Uuid::new_v4().to_string()
}

} // verus!
