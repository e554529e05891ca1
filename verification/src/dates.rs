//! Date presentation: fixed human-readable, short and ISO renderings of
//! UTC instants, and a relative "time ago" label. Instants are carried
//! as UNIX timestamps in whole seconds; chrono does the calendar work
//! behind trusted wrappers, while the branching of the relative label
//! is verified here.

use vstd::prelude::*;

use crate::strutil::{dec_of, u64_to_string};

verus! {

/// The first instant chrono's calendar can represent: midnight of the
/// first day of its lowest year.
pub const TS_MIN: i64 = -8_334_601_228_800;

/// The last whole second chrono's calendar can represent: the end of
/// the last day of its highest year. Any `chrono::DateTime<Utc>` has a
/// timestamp in `[TS_MIN, TS_MAX]`.
pub const TS_MAX: i64 = 8_210_266_876_799;

/// Timestamps the formatting functions accept: chrono's whole
/// representable span, on which `DateTime::from_timestamp` always
/// succeeds.
pub open spec fn ts_in_range(ts: i64) -> bool {
    TS_MIN <= ts <= TS_MAX
}

/// The "%B %d, %Y" rendering (full English month name) of a timestamp.
pub uninterp spec fn readable_of(ts: i64) -> Seq<char>;

/// The "%b %d, %Y" rendering (short English month name) of a timestamp.
pub uninterp spec fn short_of(ts: i64) -> Seq<char>;

/// The RFC 3339 rendering of a timestamp.
pub uninterp spec fn iso_of(ts: i64) -> Seq<char>;

/// Relies on chrono's `DateTime::from_timestamp` and `format` with
/// "%B %d, %Y": in-range seconds give `Some`, and the rendering uses
/// fixed English month names, so it depends on the timestamp alone.
#[verifier::external_body]
fn ts_format_readable(ts: i64) -> (r: String)
    requires
        ts_in_range(ts),
    ensures
        r@ == readable_of(ts),
{
    match chrono::DateTime::<chrono::Utc>::from_timestamp(ts, 0) {
        Some(dt) => dt.format("%B %d, %Y").to_string(),
        None => String::new(),
    }
}

/// Relies on chrono's `DateTime::from_timestamp` and `format` with
/// "%b %d, %Y": in-range seconds give `Some`, and the rendering uses
/// fixed English month abbreviations, so it depends on the timestamp
/// alone.
#[verifier::external_body]
fn ts_format_short(ts: i64) -> (r: String)
    requires
        ts_in_range(ts),
    ensures
        r@ == short_of(ts),
{
    match chrono::DateTime::<chrono::Utc>::from_timestamp(ts, 0) {
        Some(dt) => dt.format("%b %d, %Y").to_string(),
        None => String::new(),
    }
}

/// Relies on chrono's `DateTime::from_timestamp` and `to_rfc3339`:
/// in-range seconds give `Some`, and the RFC 3339 text depends on the
/// timestamp alone.
#[verifier::external_body]
fn ts_format_iso(ts: i64) -> (r: String)
    requires
        ts_in_range(ts),
    ensures
        r@ == iso_of(ts),
{
    match chrono::DateTime::<chrono::Utc>::from_timestamp(ts, 0) {
        Some(dt) => dt.to_rfc3339(),
        None => String::new(),
    }
}

/// Relies on chrono's `Utc::now`: it reads the system clock and
/// panics on a clock before the UNIX epoch or past the calendar's
/// end; every normal return is the timestamp of a valid `DateTime`,
/// so it lies in `[0, TS_MAX]`.
#[verifier::external_body]
pub fn now_ts() -> (r: i64)
    ensures
        0 <= r <= TS_MAX,
{
    chrono::Utc::now().timestamp()
}

/// Formats a UTC timestamp into a human-readable date.
pub fn format_date_readable(date: i64) -> (r: String)
    requires
        ts_in_range(date),
    ensures
        r@ == readable_of(date),
{
    ts_format_readable(date)
}

/// Formats a UTC timestamp into a short date.
pub fn format_date_short(date: i64) -> (r: String)
    requires
        ts_in_range(date),
    ensures
        r@ == short_of(date),
{
    ts_format_short(date)
}

/// Formats a UTC timestamp into ISO (RFC 3339) form, always at whole
/// seconds: instants carry no sub-second part here.
pub fn format_date_iso(date: i64) -> (r: String)
    requires
        ts_in_range(date),
    ensures
        r@ == iso_of(date),
{
    ts_format_iso(date)
}

/// Formats a UTC timestamp into the same human-readable date as
/// `format_date_readable`.
pub fn format_date(date: i64) -> (r: String)
    requires
        ts_in_range(date),
    ensures
        r@ == readable_of(date),
{
    ts_format_readable(date)
}

/// The relative label for `date` as seen from `now`: the full date
/// beyond 30 days, else whole days, hours or minutes ago, else
/// "Just now".
pub open spec fn relative_of(date: i64, now: i64) -> Seq<char> {
    let dur = now - date;
    if dur / 86400 > 30 {
        readable_of(date)
    } else if dur / 86400 > 0 {
        dec_of((dur / 86400) as nat) + " days ago"@
    } else if dur / 3600 > 0 {
        dec_of((dur / 3600) as nat) + " hours ago"@
    } else if dur / 60 > 0 {
        dec_of((dur / 60) as nat) + " minutes ago"@
    } else {
        "Just now"@
    }
}

/// Renders the relative label for `date` as seen from `now`.
pub fn relative_label(date: i64, now: i64) -> (r: String)
    requires
        ts_in_range(date),
        ts_in_range(now),
    ensures
        r@ == relative_of(date, now),
{
    let dur: i64 = now - date;
    if dur <= 0 {
        return String::from_str("Just now");
    }
    let du = dur as u64;
    let days = du / 86400;
    let hours = du / 3600;
    let minutes = du / 60;
    if days > 30 {
        format_date_readable(date)
    } else if days > 0 {
        let mut s = u64_to_string(days);
        s.append(" days ago");
        s
    } else if hours > 0 {
        let mut s = u64_to_string(hours);
        s.append(" hours ago");
        s
    } else if minutes > 0 {
        let mut s = u64_to_string(minutes);
        s.append(" minutes ago");
        s
    } else {
        String::from_str("Just now")
    }
}

/// Returns a relative time label for `date` against the current clock
/// reading.
pub fn format_date_relative(date: i64) -> (r: String)
    requires
        ts_in_range(date),
    ensures
        exists|n: i64| (0 <= n <= TS_MAX) && r@ == relative_of(date, n),
{
    let now = now_ts();
    relative_label(date, now)
}

} // verus!
