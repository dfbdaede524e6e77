//! Instants, and their text forms as the calendar library renders them.

use vstd::prelude::*;

verus! {

/// An instant: the whole seconds since 1970-01-01 00:00:00 UTC, and the
/// nanoseconds into that second.
#[derive(Clone, Copy, Debug, PartialEq, Eq, Structural)]
pub struct Timestamp {
    pub secs: i64,
    pub nanos: u32,
}

/// The calendar date, as `YYYY-MM-DD` in UTC, of the instant `secs`,
/// `nanos`; `None` for an instant that the calendar cannot hold.
pub uninterp spec fn calendar_date(secs: int, nanos: int) -> Option<Seq<char>>;

/// The RFC 3339 text of the instant `secs`, `nanos` in UTC; `None` for an
/// instant that the calendar cannot hold.
pub uninterp spec fn rfc3339_of(secs: int, nanos: int) -> Option<Seq<char>>;

/// The instant that the RFC 3339 text `text` denotes, as seconds and
/// nanoseconds; `None` for a text that is no RFC 3339 date and time.
pub uninterp spec fn rfc3339_instant(text: Seq<char>) -> Option<(int, int)>;

/// `chrono::DateTime::format` with the pattern `%Y-%m-%d`, on the instant
/// that `chrono::DateTime::from_timestamp` makes of `at`. It is believed
/// that the text depends on the instant alone, and that none comes back
/// exactly where `from_timestamp` refuses the instant.
#[verifier::external_body]
pub(crate) fn format_date(at: Timestamp) -> (date: Option<String>)
    ensures
        match date {
            Some(text) => calendar_date(at.secs as int, at.nanos as int) == Some(text@),
            None => calendar_date(at.secs as int, at.nanos as int) is None,
        },
{
    match chrono::DateTime::from_timestamp(at.secs, at.nanos) {
        Some(instant) => Some(instant.format("%Y-%m-%d").to_string()),
        None => None,
    }
}

/// `chrono::DateTime::to_rfc3339`, on the instant that
/// `chrono::DateTime::from_timestamp` makes of `at`. It is believed that the
/// text depends on the instant alone, and that none comes back exactly
/// where `from_timestamp` refuses the instant.
#[verifier::external_body]
pub(crate) fn format_rfc3339(at: Timestamp) -> (text: Option<String>)
    ensures
        match text {
            Some(text) => rfc3339_of(at.secs as int, at.nanos as int) == Some(text@),
            None => rfc3339_of(at.secs as int, at.nanos as int) is None,
        },
{
    match chrono::DateTime::from_timestamp(at.secs, at.nanos) {
        Some(instant) => Some(instant.to_rfc3339()),
        None => None,
    }
}

/// `chrono::DateTime::parse_from_rfc3339`, the instant read off with
/// `timestamp` and `timestamp_subsec_nanos`. It is believed that the
/// outcome depends on the text alone.
#[verifier::external_body]
pub(crate) fn parse_rfc3339(text: &str) -> (at: Option<Timestamp>)
    ensures
        match at {
            Some(at) => rfc3339_instant(text@) == Some((at.secs as int, at.nanos as int)),
            None => rfc3339_instant(text@) is None,
        },
{
    match chrono::DateTime::parse_from_rfc3339(text) {
        Ok(instant) => Some(
            Timestamp { secs: instant.timestamp(), nanos: instant.timestamp_subsec_nanos() },
        ),
        Err(_) => None,
    }
}

/// `chrono::Utc::now`, read off with `timestamp` and
/// `timestamp_subsec_nanos`. Nothing is claimed of the instant. The call
/// does not return on a machine whose clock stands before 1970.
#[verifier::external_body]
pub(crate) fn current_time() -> (now: Timestamp) {
    let now = chrono::Utc::now();
    Timestamp { secs: now.timestamp(), nanos: now.timestamp_subsec_nanos() }
}

} // verus!
