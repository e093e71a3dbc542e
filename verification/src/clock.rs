//! The wall clock.

use vstd::prelude::*;

verus! {

/// `chrono::Utc::now`, as milliseconds since the Unix epoch. Nothing is
/// claimed of the value: it is whatever the clock says. Where the system
/// clock reads a time before 1970 the call does not return.
#[verifier::external_body]
pub(crate) fn now_millis() -> (r: i64) {
    chrono::Utc::now().timestamp_millis()
}

} // verus!
