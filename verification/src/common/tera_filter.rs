//! What the template filters compute: user text rendered as HTML, and times shown in a
//! given time zone.
use vstd::prelude::*;

use crate::common::html_encode::{html_rel, to_html, TagFormat};

verus! {

/// The error of the `html` filter on a value that is not a string.
pub const HTML_NOT_STRING: &'static str = "html filter can only be applied to strings";
/// The error of the `time` filter on a value that is not an integer.
pub const TIME_NOT_INTEGER: &'static str = "timestamp filter can only be applied to integers";
/// The error of the `time` filter on a time that the zone cannot show.
pub const TIME_INVALID: &'static str = "invalid timestamp value";

/// The `html` filter: the string `value` rendered under `fmt`, with links when `link` holds;
/// an error when the value is not a string (`None`).
pub fn html<T: TagFormat>(fmt: &T, value: Option<&str>, link: bool) -> (r: Result<String, &'static str>)
    ensures
        value is None ==> r == Err::<String, &'static str>(HTML_NOT_STRING),
        value matches Some(v) ==> (r matches Ok(out) && html_rel(*fmt, v@, link, out@)),
{
    match value {
        Some(v) => Ok(to_html(v, fmt, link)),
        None => Err(HTML_NOT_STRING),
    }
}

/// The time `ts` (seconds since the Unix epoch) as `YYYY-MM-DD hh:mm:ss` at the offset
/// `offset_secs` east of UTC, as `chrono` writes it; `None` where `chrono` cannot.
pub uninterp spec fn local_time_of(offset_secs: i32, ts: i64) -> Option<Seq<char>>;

/// The time `ts` written at the offset `offset_secs` (`chrono::FixedOffset::east_opt`,
/// `TimeZone::timestamp_opt(ts, 0).single()`, then `format("%Y-%m-%d %H:%M:%S")`).
/// Claimed of the `chrono` crate: the text depends on the offset and the time alone.
#[verifier::external_body]
fn local_time_text(offset_secs: i32, ts: i64) -> (r: Option<String>)
    ensures
        match r {
            Some(s) => local_time_of(offset_secs, ts) == Some(s@),
            None => local_time_of(offset_secs, ts) is None,
        },
{
    match chrono::FixedOffset::east_opt(offset_secs) {
        Some(tz) => match chrono::TimeZone::timestamp_opt(&tz, ts, 0).single() {
            Some(dt) => Some(dt.format("%Y-%m-%d %H:%M:%S").to_string()),
            None => None,
        },
        None => None,
    }
}

/// The `time` filter: the integer `value` as a time at the offset `offset_secs`; an error
/// when the value is not an integer (`None`) or the time cannot be written.
pub fn timestamp(offset_secs: i32, value: Option<i64>) -> (r: Result<String, &'static str>)
    ensures
        value is None ==> r == Err::<String, &'static str>(TIME_NOT_INTEGER),
        value matches Some(ts) ==> match local_time_of(offset_secs, ts) {
            Some(t) => r matches Ok(s) && s@ == t,
            None => r == Err::<String, &'static str>(TIME_INVALID),
        },
{
    match value {
        Some(ts) => match local_time_text(offset_secs, ts) {
            Some(s) => Ok(s),
            None => Err(TIME_INVALID),
        },
        None => Err(TIME_NOT_INTEGER),
    }
}

} // verus!
