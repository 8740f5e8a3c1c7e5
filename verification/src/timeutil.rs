//! Clock access and timestamp text.  The store keeps timestamps as
//! `YYYY-MM-DD HH:MM:SS` UTC text; scheduling headers arrive as relative
//! durations or absolute timestamps.  Parsing and formatting go through
//! the calendar library; the core handles epoch seconds.

use vstd::prelude::*;

verus! {

/// Relies on `chrono::Utc::now`: the wall clock, in whole seconds since
/// the Unix epoch.  Nothing is promised of the clock's reading.
#[verifier::external_body]
pub fn now_epoch_seconds() -> i64 {
    chrono::Utc::now().timestamp()
}

/// The number of whole seconds that `humantime::parse_duration` reads from
/// a human-readable duration such as `30m` or `2h30m`; `None` when the
/// string does not parse.
pub uninterp spec fn human_duration_secs(s: Seq<char>) -> Option<int>;

/// Relies on `humantime::parse_duration`: a pure parser of human-readable
/// durations, taken in whole seconds.
#[verifier::external_body]
pub fn parse_human_duration_secs(s: &str) -> (r: Option<u64>)
    ensures
        r matches Some(d) ==> human_duration_secs(s@) == Some(d as int),
        r is None ==> human_duration_secs(s@) is None,
{
    humantime::parse_duration(s).ok().map(|d| d.as_secs())
}

/// The epoch second an RFC 3339 timestamp denotes; `None` when the string
/// does not parse.
pub uninterp spec fn rfc3339_epoch(s: Seq<char>) -> Option<int>;

/// Relies on `chrono::DateTime::parse_from_rfc3339`: parses an RFC 3339
/// timestamp with offset, normalized here to seconds since the Unix epoch.
#[verifier::external_body]
pub fn parse_rfc3339_epoch(s: &str) -> (r: Option<i64>)
    ensures
        r matches Some(t) ==> rfc3339_epoch(s@) == Some(t as int),
        r is None ==> rfc3339_epoch(s@) is None,
{
    chrono::DateTime::parse_from_rfc3339(s).ok().map(|dt| dt.timestamp())
}

/// The epoch second a `YYYY-MM-DD HH:MM:SS` timestamp denotes read as UTC;
/// `None` when the string does not parse.
pub uninterp spec fn sql_datetime_epoch(s: Seq<char>) -> Option<int>;

/// Relies on `chrono::NaiveDateTime::parse_from_str` with the fixed format
/// `%Y-%m-%d %H:%M:%S`, read as UTC.
#[verifier::external_body]
pub fn parse_sql_datetime_epoch(s: &str) -> (r: Option<i64>)
    ensures
        r matches Some(t) ==> sql_datetime_epoch(s@) == Some(t as int),
        r is None ==> sql_datetime_epoch(s@) is None,
{
    chrono::NaiveDateTime::parse_from_str(s, "%Y-%m-%d %H:%M:%S").ok().map(
        |dt| dt.and_utc().timestamp(),
    )
}

/// The `YYYY-MM-DD HH:MM:SS` UTC text of an epoch second.
pub uninterp spec fn sql_datetime_text(t: int) -> Seq<char>;

/// The last epoch second whose four-digit-year store text exists:
/// 9999-12-31 23:59:59 UTC.
pub const MAX_TEXT_EPOCH: i64 = 253402300799;

/// Whether an epoch second falls in the span the store's fixed-width
/// timestamp text covers, 1970 through 9999; there lexicographic order on
/// the text is time order.
pub open spec fn spec_epoch_in_text_range(t: int) -> bool {
    0 <= t <= MAX_TEXT_EPOCH as int
}

/// Relies on `chrono::DateTime::from_timestamp` and its formatter with the
/// fixed format `%Y-%m-%d %H:%M:%S`: the textual UTC timestamp of an epoch
/// second.  `None` comes only for a second outside the representable range,
/// which chrono documents as hundreds of millennia around the common era —
/// in particular every second of 1970 through 9999 formats.
#[verifier::external_body]
pub fn epoch_to_sql_datetime(t: i64) -> (r: Option<String>)
    ensures
        r matches Some(x) ==> x@ == sql_datetime_text(t as int),
        spec_epoch_in_text_range(t as int) ==> r is Some,
{
    chrono::DateTime::from_timestamp(t, 0).map(|dt| dt.format("%Y-%m-%d %H:%M:%S").to_string())
}

/// The current moment as store timestamp text.
pub fn now_sql_datetime() -> (r: Option<String>)
    ensures
        r matches Some(x) ==> exists|t: i64| x@ == sql_datetime_text(t as int),
{
    let now = now_epoch_seconds();
    let r = epoch_to_sql_datetime(now);
    proof {
        if r is Some {
            assert(r->0@ == sql_datetime_text(now as int));
        }
    }
    r
}

} // verus!
