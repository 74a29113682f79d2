//! The one place where the library asks for the current time.
use vstd::prelude::*;
use crate::text::no_newline;

verus! {

/// Relies on `chrono::Utc::now` and `chrono::DateTime::to_rfc3339`: the
/// current time as an RFC 3339 timestamp with offset, such as
/// `2021-01-01T00:00:00+00:00`. Whatever instant the clock reports, that
/// format is a non-empty single line of text.
#[verifier::external_body]
pub(crate) fn now_rfc3339() -> (r: String)
    ensures
        r@.len() > 0,
        no_newline(r@),
{
    chrono::Utc::now().to_rfc3339()
}

} // verus!
