//! The wall clock, read as the text of an instant.

use vstd::prelude::*;

verus! {

/// Calls `chrono::Utc::now` and renders the instant as its debug text
/// (`2019-06-01T12:34:56.789Z`), which is the text that chrono gives a UTC
/// instant when it is serialized.
///
/// Trusted: nothing is claimed of the text, which differs from call to call.
#[verifier::external_body]
pub(crate) fn utc_now_text() -> String {
    format!("{:?}", chrono::Utc::now())
}

} // verus!
