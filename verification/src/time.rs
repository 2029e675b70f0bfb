//! The clock and the timestamp format, supplied by chrono.

use vstd::prelude::*;

verus! {

/// Whether a text is accepted as an RFC 3339 timestamp by chrono's parser.
/// The exact grammar is chrono's; acceptance depends on the characters alone.
pub uninterp spec fn rfc3339_ok(s: Seq<char>) -> bool;

/// Relies on chrono's `DateTime::parse_from_rfc3339`: whether a text parses
/// as an RFC 3339 timestamp is a function of the characters alone.
#[verifier::external_body]
pub(crate) fn rfc3339_valid(s: &str) -> (r: bool)
    ensures
        r == rfc3339_ok(s@),
{
    chrono::DateTime::parse_from_rfc3339(s).is_ok()
}

/// Relies on chrono's `Utc::now` and `DateTime::to_rfc3339`: the current UTC
/// time rendered as text. Nothing is promised of the text: for clock years
/// outside 0-9999 chrono renders a sign-prefixed year that its own strict
/// parser refuses, so code that needs a parseable timestamp must check the
/// text itself. One clock state the library cannot survive: `Utc::now`
/// panics when the system clock is set before the Unix epoch.
#[verifier::external_body]
pub(crate) fn now_rfc3339() -> (r: String) {
    chrono::Utc::now().to_rfc3339()
}

} // verus!
