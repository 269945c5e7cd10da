//! Showing a point in time (seconds since the Unix epoch) as UTC text.
use vstd::prelude::*;

use crate::text::string_opt;

verus! {

/// The pattern for a day: `2024-03-05`.
pub open spec fn day_pattern() -> Seq<char> {
    "%Y-%m-%d"@
}

/// The pattern for a minute: `2024-03-05 14:07 UTC`.
pub open spec fn minute_pattern() -> Seq<char> {
    "%Y-%m-%d %H:%M UTC"@
}

/// What chrono writes for the UTC time `secs` seconds after the Unix epoch
/// with the strftime-style `pattern`; `None` where chrono holds no such time.
pub uninterp spec fn utc_text(secs: i64, pattern: Seq<char>) -> Option<Seq<char>>;


/// `chrono::DateTime::<Utc>::from_timestamp(secs, 0)` then `format(pattern)`:
/// the contract names the text chrono writes (`utc_text`) and says no more of
/// it; `from_timestamp` returns `None` for seconds out of chrono's range, and
/// the result is `None` then. Only the two patterns this crate uses are
/// admitted, as formatting with a malformed pattern panics.
#[verifier::external_body]
pub(crate) fn format_utc(secs: i64, pattern: &str) -> (r: Option<String>)
    requires
        pattern@ == day_pattern() || pattern@ == minute_pattern(),
    ensures
        string_opt(r) == utc_text(secs, pattern@),
{
    match chrono::DateTime::from_timestamp(secs, 0) {
        Some(t) => Some(t.format(pattern).to_string()),
        None => None,
    }
}

/// What chrono's `to_rfc3339` writes for the UTC time `secs` seconds after
/// the Unix epoch; `None` where chrono holds no such time.
pub uninterp spec fn rfc3339_text(secs: i64) -> Option<Seq<char>>;

/// `chrono::DateTime::<Utc>::from_timestamp(secs, 0)` then `to_rfc3339`:
/// the contract names the text (`rfc3339_text`) and says no more of it;
/// the result is `None` for seconds out of chrono's range.
#[verifier::external_body]
pub(crate) fn format_rfc3339(secs: i64) -> (r: Option<String>)
    ensures
        string_opt(r) == rfc3339_text(secs),
{
    match chrono::DateTime::from_timestamp(secs, 0) {
        Some(t) => Some(t.to_rfc3339()),
        None => None,
    }
}

/// The second (since the Unix epoch, fractions dropped) of the time that
/// chrono reads from `text` as a `DateTime<Utc>`; `None` where it reads none.
pub uninterp spec fn parsed_utc(text: Seq<char>) -> Option<i64>;

/// `text.parse::<chrono::DateTime<Utc>>()` then `timestamp()`: the contract
/// names the result (`parsed_utc`) and says no more of chrono's parser.
#[verifier::external_body]
pub(crate) fn parse_utc_seconds(text: &str) -> (r: Option<i64>)
    ensures
        r == parsed_utc(text@),
{
    match text.parse::<chrono::DateTime<chrono::Utc>>() {
        Ok(t) => Some(t.timestamp()),
        Err(_) => None,
    }
}

} // verus!
