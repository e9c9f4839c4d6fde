use vstd::prelude::*;

verus! {

/// The Unix timestamp (seconds since the epoch, the text read as UTC) that
/// the fixed `%Y-%m-%d %H:%M:%S` pattern assigns to a date-and-time text,
/// or `None` where the text does not match the pattern.  The value depends
/// on the characters alone.
pub uninterp spec fn parsed_epoch(s: Seq<char>) -> Option<i64>;

/// The calendar rendering of a Unix timestamp under the fixed pattern
/// `\u{f133} %a %d %b %Y \u{f017} %H:%M` (calendar icon, abbreviated
/// weekday, zero-padded day, abbreviated month, four-digit year, clock
/// icon, 24-hour time), or `None` where the timestamp lies outside the
/// representable calendar range.  The rendering depends on the timestamp
/// alone.
pub uninterp spec fn rendered_datetime(ts: i64) -> Option<Seq<char>>;

/// Relies on `chrono::NaiveDateTime::parse_from_str` with the pattern
/// `%Y-%m-%d %H:%M:%S`, which either parses the whole text as a naive
/// date and time or fails, and on `chrono::DateTime::timestamp`, which
/// counts that date's non-leap seconds since the Unix epoch.  Both are
/// functions of the input text alone.
#[verifier::external_body]
pub(crate) fn parse_datetime(s: &str) -> (r: Option<i64>)
    ensures
        r == parsed_epoch(s@),
{
    match chrono::NaiveDateTime::parse_from_str(s, "%Y-%m-%d %H:%M:%S") {
        Ok(dt) => Some(dt.and_utc().timestamp()),
        Err(_) => None,
    }
}

/// Relies on `chrono::DateTime::<Utc>::from_timestamp`, which is `Some`
/// exactly on the timestamps chrono's calendar can hold, and on
/// `chrono::NaiveDateTime::format` with the fixed pattern
/// `\u{f133} %a %d %b %Y \u{f017} %H:%M`.  The rendering is a function of
/// the timestamp alone (chrono's names for weekdays and months are fixed
/// English abbreviations), and none of the pattern's pieces produces a
/// tab character.
#[verifier::external_body]
pub(crate) fn render_datetime(ts: i64) -> (r: Option<String>)
    ensures
        (r is Some) == (rendered_datetime(ts) is Some),
        r matches Some(s) ==> rendered_datetime(ts) == Some(s@) && !s@.contains('\t'),
{
    match chrono::DateTime::<chrono::Utc>::from_timestamp(ts, 0) {
        Some(dt) => Some(dt.naive_utc().format("\u{f133} %a %d %b %Y \u{f017} %H:%M").to_string()),
        None => None,
    }
}

} // verus!
