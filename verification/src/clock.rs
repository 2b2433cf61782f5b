//! The wall clock.
use vstd::prelude::*;

verus! {

/// The current time in seconds since the Unix epoch, from
/// `chrono::Utc::now().timestamp()`; nothing is stated of it.
#[verifier::external_body]
pub(crate) fn unix_now_seconds() -> i64 {
    chrono::Utc::now().timestamp()
}

} // verus!
