//! The time of day.

use vstd::prelude::*;

verus! {

/// `chrono::Utc::now` as a Unix timestamp. Nothing is known of the result.
#[verifier::external_body]
pub(crate) fn now() -> (t: i64) {
    chrono::Utc::now().timestamp()
}

} // verus!
