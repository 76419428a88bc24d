//! Time: the current instant, and the instant that an RFC 2822 date names.

use vstd::prelude::*;

verus! {

/// The instant, in seconds since the Unix epoch, that an RFC 2822 date text
/// names, or `None` where the text is not such a date.
pub uninterp spec fn rfc2822_seconds(s: Seq<char>) -> Option<i64>;

/// The error of chrono's parsers.
#[verifier::external_type_specification]
#[verifier::external_body]
pub struct ExParseError(chrono::ParseError);

/// Relies on `chrono::Utc::now` and `DateTime::timestamp`: the current time in
/// whole seconds since the Unix epoch. Nothing is known of its value (chrono
/// panics only where the system clock stands before the epoch).
#[verifier::external_body]
pub(crate) fn now_seconds() -> (r: i64) {
    chrono::Utc::now().timestamp()
}

/// Relies on `chrono::DateTime::parse_from_rfc2822` and `timestamp`: the
/// result depends on the text alone.
#[verifier::external_body]
pub(crate) fn parse_rfc2822(s: &str) -> (r: Result<i64, chrono::ParseError>)
    ensures
        r matches Ok(t) ==> rfc2822_seconds(s@) == Some(t),
        r is Err ==> rfc2822_seconds(s@) is None,
{
    chrono::DateTime::parse_from_rfc2822(s).map(|d| d.timestamp())
}

/// The instant that an RFC 2822 date text names, in seconds since the epoch.
pub fn date_seconds(s: &str) -> (r: Option<i64>)
    ensures
        r == rfc2822_seconds(s@),
{
    match parse_rfc2822(s) {
        Ok(t) => Some(t),
        Err(_) => None,
    }
}

} // verus!
