//! The current time, from the system clock.
use vstd::prelude::*;

verus! {

/// The longest trace that can end now: about 250,000 years, in milliseconds.
pub const MAX_SPAN_MS: u64 = 8_000_000_000_000_000;

/// Relies on `chrono::Utc::now` and `DateTime::to_rfc3339`: the current UTC
/// time in RFC 3339 form. It differs from call to call, so nothing is stated
/// of it.
#[verifier::external_body]
pub(crate) fn now_rfc3339() -> (r: String) {
    chrono::Utc::now().to_rfc3339()
}

/// Relies on `chrono::Utc::now`, `chrono::Duration::milliseconds` and
/// `DateTime::to_rfc3339`: the RFC 3339 times `duration_ms` milliseconds ago
/// and now, in that order. They depend on the clock, so nothing is stated of
/// them. Subtracting panics past chrono's range of about 262,000 years
/// before the epoch, which the bound on the duration keeps clear of.
#[verifier::external_body]
pub(crate) fn span_ending_now(duration_ms: u64) -> (r: (String, String))
    requires
        duration_ms <= MAX_SPAN_MS,
{
    let end = chrono::Utc::now();
    let start = end - chrono::Duration::milliseconds(duration_ms as i64);
    (start.to_rfc3339(), end.to_rfc3339())
}

/// The text that `chrono` writes for an RFC 3339 time in UTC with the pattern
/// `%Y-%m-%d %H:%M:%S%.3f`, if the text reads as such a time.
pub uninterp spec fn clock_text_of(ts: Seq<char>) -> Option<Seq<char>>;

/// Relies on `chrono::DateTime::parse_from_rfc3339` and `DateTime::format`:
/// the result depends on the text alone, and text that is no RFC 3339 time
/// gives none.
#[verifier::external_body]
pub(crate) fn clock_text(ts: &str) -> (r: Option<String>)
    ensures
        match clock_text_of(ts@) {
            Some(t) => r matches Some(x) && x@ == t,
            None => r is None,
        },
{
    chrono::DateTime::parse_from_rfc3339(ts)
        .ok()
        .map(|t| t.with_timezone(&chrono::Utc).format("%Y-%m-%d %H:%M:%S%.3f").to_string())
}

/// Relies on `uuid::Uuid::new_v4`: a random identifier in its hyphenated text
/// form. It is random, so nothing is stated of it.
#[verifier::external_body]
pub(crate) fn new_span_id() -> (r: String) {
    uuid::Uuid::new_v4().to_string()
}

} // verus!
