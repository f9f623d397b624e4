//! Trusted bridge to the outside collaborators: the clock and calendar
//! (`chrono`, `chrono-tz`), the cron-expression engine (`cron`) and the
//! id generator (`uuid`).
//!
//! Every item here is `external_body`: Verus believes its contract and
//! does not read its body.  Each contract states only what the outside
//! crate's source or documentation plainly shows.

use vstd::prelude::*;
use chrono::{Datelike, Offset, TimeZone, Timelike};
use std::str::FromStr;

verus! {

/// The current instant, split into plain values: the unix timestamp and
/// the wall-clock fields of the reference timezone's local time.
pub struct NowParts {
    pub unix_seconds: i64,
    pub unix_millis: i64,
    pub year: i32,
    /// 1 to 12.
    pub month: u32,
    /// 1 to 31.
    pub day: u32,
    /// 0 to 23.
    pub hour: u32,
    /// 0 to 59.
    pub minute: u32,
    /// 0 to 59.
    pub second: u32,
    /// 0 (Monday) to 6 (Sunday).
    pub weekday_from_monday: u32,
    /// Local time minus UTC, in seconds; magnitude below one day.
    pub utc_offset_seconds: i32,
}

/// Relies on `chrono::Utc::now` and the `Datelike`/`Timelike` accessors
/// of the instant converted to the reference timezone: `month` is 1-12,
/// `day` 1-31, `hour` 0-23, `minute` and `second` 0-59,
/// `Weekday::num_days_from_monday` 0-6, and a fixed offset's
/// `local_minus_utc` lies strictly between -86400 and 86400.
/// The instant itself is the wall clock's: nothing is assumed of it.
#[verifier::external_body]
pub(crate) fn now_parts() -> (r: NowParts)
    ensures
        1 <= r.month <= 12,
        1 <= r.day <= 31,
        r.hour <= 23,
        r.minute <= 59,
        r.second <= 59,
        r.weekday_from_monday <= 6,
        -86400 < r.utc_offset_seconds < 86400,
{
    let t = chrono::Utc::now().with_timezone(&chrono_tz::Asia::Shanghai);
    NowParts {
        unix_seconds: t.timestamp(),
        unix_millis: t.timestamp_millis(),
        year: t.year(),
        month: t.month(),
        day: t.day(),
        hour: t.hour(),
        minute: t.minute(),
        second: t.second(),
        weekday_from_monday: t.weekday().num_days_from_monday(),
        utc_offset_seconds: t.offset().fix().local_minus_utc(),
    }
}

/// The unix timestamps of local `00:00:00` and `23:59:59` of the civil
/// day `y-m-d` in the reference timezone, or `None` when the date or
/// either boundary instant does not exist (or is ambiguous) there.
/// The value depends on the arguments alone.
pub uninterp spec fn local_day_bounds(y: i32, m: u32, d: u32) -> Option<(i64, i64)>;

/// Relies on `chrono::NaiveDate::from_ymd_opt`,
/// `NaiveDate::and_hms_opt` and chrono-tz's
/// `TimeZone::from_local_datetime` / `LocalResult::single`: the mapping
/// from a civil date to the day's boundary instants is a function of the
/// date alone, named by [`local_day_bounds`].
#[verifier::external_body]
pub(crate) fn day_window(y: i32, m: u32, d: u32) -> (r: Option<(i64, i64)>)
    ensures
        r == local_day_bounds(y, m, d),
{
    let nd = chrono::NaiveDate::from_ymd_opt(y, m, d)?;
    let tz = chrono_tz::Asia::Shanghai;
    let s = tz.from_local_datetime(&nd.and_hms_opt(0, 0, 0)?).single()?;
    let e = tz.from_local_datetime(&nd.and_hms_opt(23, 59, 59)?).single()?;
    Some((s.timestamp(), e.timestamp()))
}

/// The last second of year 9999 UTC: the highest instant the planner
/// ever hands to the calendar collaborators.  Any window of a
/// four-digit-year calendar date lies at or below it, far below the
/// top of chrono's calendar.
pub const MAX_PLAN_INSTANT: i64 = 253402300799;

/// The trigger instants that the cron engine enumerates for `expr`
/// strictly inside the window `(lo, hi)`, or `None` when it rejects the
/// expression (or the window's instants cannot be represented).  The
/// value depends on the arguments alone.
pub uninterp spec fn cron_window_times(expr: Seq<char>, lo: i64, hi: i64) -> Option<Seq<i64>>;

/// Relies on `cron::Schedule::from_str` (accepts or rejects the
/// expression by its grammar alone) and `Schedule::after`, whose
/// iterator yields the schedule's trigger instants strictly after the
/// given one, here bounded to those before `hi`; that composite result
/// is named by [`cron_window_times`].  Each returned instant lies
/// strictly between `lo` and `hi` by construction of the enumeration.
///
/// The iterator's first step moves one second past the given instant in
/// chrono's calendar, an addition that panics at the calendar's top, so
/// `lo` must stay well below it: [`MAX_PLAN_INSTANT`] leaves over 250
/// millennia of room (and the engine's own year field stops at 2100).
#[verifier::external_body]
pub(crate) fn cron_times_in_window(expr: &str, lo: i64, hi: i64) -> (r: Option<Vec<i64>>)
    requires
        lo <= MAX_PLAN_INSTANT,
    ensures
        (match (r, cron_window_times(expr@, lo, hi)) {
            (Some(v), Some(s)) => v@ == s,
            (None, None) => true,
            _ => false,
        }),
        (r matches Some(v) ==> forall|i: int| 0 <= i < v@.len() ==> lo < #[trigger] v@[i] < hi),
{
    let schedule = match cron::Schedule::from_str(expr) {
        Ok(s) => s,
        Err(_) => return None,
    };
    let lo_dt = chrono::DateTime::from_timestamp(lo, 0)?.with_timezone(&chrono_tz::Asia::Shanghai);
    Some(schedule.after(&lo_dt).take_while(|d| d.timestamp() < hi).map(|d| d.timestamp()).collect())
}

/// Relies on `uuid::Uuid::new_v4` and its hyphenated `Display` form:
/// 36 ASCII characters.  The value is random: nothing else is assumed.
#[verifier::external_body]
pub(crate) fn new_uuid() -> (r: String)
    ensures
        r@.len() == 36,
{
    uuid::Uuid::new_v4().to_string()
}

} // verus!
