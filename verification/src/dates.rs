//! Dates and instants. A calendar day is held as its number in the proleptic Gregorian
//! calendar, January 1 of year 1 being day 1 (chrono's `num_days_from_ce`); an instant is
//! held as seconds and nanoseconds since the Unix epoch, which orders instants as
//! `DateTime<Utc>` does.

use vstd::prelude::*;
#[allow(deprecated)]
use chrono::{DateTime, Datelike, Duration, NaiveDate, SecondsFormat, Utc};

verus! {

/// The day number of 1970-01-01.
pub const UNIX_EPOCH_DAY: i64 = 719163;

/// The day number of chrono's `NaiveDate::MIN`, January 1 of year -262143.
pub const FIRST_DAY: i32 = -95746129;

/// The day number of chrono's `NaiveDate::MAX`, December 31 of year 262142.
pub const LAST_DAY: i32 = 95745399;

/// A day that chrono's `NaiveDate` can represent.
pub open spec fn in_date_range(day: int) -> bool {
    FIRST_DAY <= day <= LAST_DAY
}

/// An instant: seconds since the Unix epoch and the nanoseconds within that second.
#[derive(Debug, Clone, Copy, PartialEq, Eq, Structural)]
pub struct Timestamp {
    pub secs: i64,
    pub nanos: u32,
}

/// `a` comes strictly before `b`.
pub open spec fn before(a: Timestamp, b: Timestamp) -> bool {
    a.secs < b.secs || (a.secs == b.secs && a.nanos < b.nanos)
}

/// Whether `a` comes strictly before `b`.
pub fn is_before(a: Timestamp, b: Timestamp) -> (r: bool)
    ensures
        r == before(a, b),
{
    a.secs < b.secs || (a.secs == b.secs && a.nanos < b.nanos)
}

/// chrono: the date numbered `day`, at midnight, as `DateTime<Utc>`, in seconds since the
/// Unix epoch. `NaiveDate::from_num_days_from_ce_opt` gives the date whose
/// `num_days_from_ce` is `day` (or `None` out of chrono's range), and `DateTime::timestamp`
/// counts `(num_days_from_ce - UNIX_EPOCH_DAY) * 86400` seconds plus the seconds since
/// midnight, here none. `from_num_days_from_ce_opt` gives `None` exactly for the days
/// before `NaiveDate::MIN` and after `NaiveDate::MAX`.
#[verifier::external_body]
#[allow(deprecated)]
fn midnight_utc_seconds(day: i32) -> (r: Option<i64>)
    ensures
        r is Some <==> in_date_range(day as int),
        r matches Some(t) ==> t == (day - UNIX_EPOCH_DAY) * 86400,
{
    let date = NaiveDate::from_num_days_from_ce_opt(day)?;
    Some(DateTime::<Utc>::from_utc(date.and_hms(0, 0, 0), Utc).timestamp())
}

/// Midnight UTC at the start of day `day`.
pub open spec fn midnight(day: int) -> Timestamp {
    Timestamp { secs: ((day - UNIX_EPOCH_DAY) * 86400) as i64, nanos: 0 }
}

/// The start of the day `begin` and of the day `end`, at midnight UTC, as `DateTime<Utc>`
/// instants; `None` where chrono cannot represent one of the days.
pub fn begin_and_end(begin: i32, end: i32) -> (r: Option<(Timestamp, Timestamp)>)
    ensures
        r is Some <==> in_date_range(begin as int) && in_date_range(end as int),
        r matches Some((b, e)) ==> b == midnight(begin as int) && e == midnight(end as int),
{
    let b = match midnight_utc_seconds(begin) {
        Some(t) => t,
        None => return None,
    };
    let e = match midnight_utc_seconds(end) {
        Some(t) => t,
        None => return None,
    };
    Some((Timestamp { secs: b, nanos: 0 }, Timestamp { secs: e, nanos: 0 }))
}

/// The text `format("%Y-%m-%d")` gives for the day numbered `day`.
pub uninterp spec fn iso_date(day: int) -> Seq<char>;

/// chrono: the day numbered `day` formatted with `%Y-%m-%d`; `None` where
/// `NaiveDate::from_num_days_from_ce_opt` finds the day out of range, before
/// `NaiveDate::MIN` or after `NaiveDate::MAX`.
#[verifier::external_body]
pub(crate) fn format_day(day: i32) -> (r: Option<String>)
    ensures
        r is Some <==> in_date_range(day as int),
        r matches Some(s) ==> s@ == iso_date(day as int),
{
    let date = NaiveDate::from_num_days_from_ce_opt(day)?;
    Some(date.format("%Y-%m-%d").to_string())
}

/// chrono: the day before the day numbered `day`, as `date - Duration::days(1)` computes it
/// (through `checked_sub_signed`); `None` where either day is out of chrono's range,
/// from `NaiveDate::MIN` to `NaiveDate::MAX`.
#[verifier::external_body]
pub(crate) fn day_before(day: i32) -> (r: Option<i32>)
    ensures
        (r is Some) == (in_date_range(day - 1) && day <= LAST_DAY),
        r matches Some(p) ==> p == day - 1,
{
    let date = NaiveDate::from_num_days_from_ce_opt(day)?;
    Some(date.checked_sub_signed(Duration::days(1))?.num_days_from_ce())
}

/// The text `to_rfc3339_opts(SecondsFormat::Millis, true)` gives for midnight UTC at the
/// start of the day numbered `day`.
pub uninterp spec fn rfc3339_midnight(day: int) -> Seq<char>;

/// chrono: midnight UTC at the start of the day numbered `day`, as `DateTime<Utc>`, written
/// as RFC 3339 with milliseconds and `Z` (`to_rfc3339_opts(SecondsFormat::Millis, true)`,
/// whose `expect` on writing to a `String` never fires); `None` where
/// `NaiveDate::from_num_days_from_ce_opt` finds the day out of range, before
/// `NaiveDate::MIN` or after `NaiveDate::MAX`.
#[verifier::external_body]
#[allow(deprecated)]
pub(crate) fn format_midnight_rfc3339(day: i32) -> (r: Option<String>)
    ensures
        r is Some <==> in_date_range(day as int),
        r matches Some(s) ==> s@ == rfc3339_midnight(day as int),
{
    let date = NaiveDate::from_num_days_from_ce_opt(day)?;
    let t = DateTime::<Utc>::from_utc(date.and_hms(0, 0, 0), Utc);
    Some(t.to_rfc3339_opts(SecondsFormat::Millis, true))
}

/// An instant that `DateTime::<Utc>::from_timestamp(secs, nanos)` accepts: its day is in
/// chrono's range, and its nanoseconds lie within the second, or within a leap second
/// (below two seconds' worth) where the second is the last of a minute.
pub open spec fn representable(t: Timestamp) -> bool {
    &&& in_date_range(t.secs / 86400 + UNIX_EPOCH_DAY)
    &&& t.nanos < 1_000_000_000 || (t.nanos < 2_000_000_000 && (t.secs % 86400) % 60 == 59)
}

/// What `(until - now).to_std()` gives for the two instants as `DateTime<Utc>`: the time
/// from `now` to `until` as whole seconds and nanoseconds, `None` where it is negative.
pub uninterp spec fn std_wait(now_secs: int, now_nanos: int, until_secs: int, until_nanos: int) -> Option<(u64, u32)>;

/// chrono: the two instants made with `DateTime::<Utc>::from_timestamp`, then
/// `(until - now).to_std()` (chrono's subtraction, which counts leap seconds); `None` where
/// `from_timestamp` refuses one of the instants.
#[verifier::external_body]
fn chrono_wait(now: Timestamp, until: Timestamp) -> (r: Option<Option<(u64, u32)>>)
    ensures
        (r is Some) == (representable(now) && representable(until)),
        r matches Some(w) ==> w == std_wait(now.secs as int, now.nanos as int, until.secs as int, until.nanos as int),
{
    let n = DateTime::<Utc>::from_timestamp(now.secs, now.nanos)?;
    let u = DateTime::<Utc>::from_timestamp(until.secs, until.nanos)?;
    match (u - n).to_std() {
        Ok(d) => Some(Some((d.as_secs(), d.subsec_nanos()))),
        Err(_) => Some(None),
    }
}

/// How long to sleep from `now` until `until`: nothing (`None`) where `until` is not later
/// than `now`; else the duration that chrono's `(until - now).to_std()` gives. `None` also
/// where chrono cannot hold one of the instants, or finds the duration negative.
pub fn time_to_wait(now: Timestamp, until: Timestamp) -> (r: Option<(u64, u32)>)
    ensures
        r == (if before(now, until) && representable(now) && representable(until) {
            std_wait(now.secs as int, now.nanos as int, until.secs as int, until.nanos as int)
        } else {
            None
        }),
{
    if !is_before(now, until) {
        return None;
    }
    match chrono_wait(now, until) {
        Some(w) => w,
        None => None,
    }
}

} // verus!
