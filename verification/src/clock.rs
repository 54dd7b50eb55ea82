//! The one place the library reads the wall clock.

use vstd::prelude::*;

verus! {

/// Relies on chrono::Utc::now: the current time as whole seconds since the
/// Unix epoch. Nothing is promised of the value; callers test the range
/// they need.
#[verifier::external_body]
pub(crate) fn now_timestamp() -> i64 {
    chrono::Utc::now().timestamp()
}

} // verus!
