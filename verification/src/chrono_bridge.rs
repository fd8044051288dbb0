//! The calls into the `chrono` date library that the date logic makes, each with
//! the contract that the library's documentation gives it.
use crate::calendar::{first_supported_day, last_supported_day, CivilDate};
use crate::date_text::ymd_text;
use chrono::Datelike;
use chrono::TimeZone;
use vstd::prelude::*;

verus! {

/// An instant as the clock gives it: whole seconds since 1970-01-01T00:00:00Z
/// and the nanoseconds past that second.
#[derive(Clone, Copy, Debug, PartialEq, Eq, Structural)]
pub struct ClockInstant {
    pub seconds: i64,
    pub nanos: u32,
}

/// Largest number of whole seconds that a `chrono::TimeDelta` holds.
pub open spec fn max_delta_seconds() -> int {
    9223372036854775
}

/// `chrono::NaiveDate::from_ymd_opt`: the date with this year, month and day,
/// or `None` where no such day exists or the year lies outside the library's range.
#[verifier::external_body]
pub(crate) fn date_from_ymd(year: i32, month: u32, day: u32) -> (r: Option<CivilDate>)
    ensures
        r == (if (CivilDate { year, month, day }).well_formed() {
            Some(CivilDate { year, month, day })
        } else {
            None::<CivilDate>
        }),
{
    chrono::NaiveDate::from_ymd_opt(year, month, day).map(
        |n| CivilDate { year: n.year(), month: n.month(), day: n.day() },
    )
}

/// `chrono::NaiveDate::signed_duration_since`, read in whole days: the number of
/// days from `b` to `a`.
#[verifier::external_body]
pub(crate) fn days_since(a: CivilDate, b: CivilDate) -> (r: i64)
    requires
        a.well_formed(),
        b.well_formed(),
    ensures
        r == a.day_number() - b.day_number(),
{
    let na = chrono::NaiveDate::from_ymd_opt(a.year, a.month, a.day).unwrap();
    let nb = chrono::NaiveDate::from_ymd_opt(b.year, b.month, b.day).unwrap();
    na.signed_duration_since(nb).num_days()
}

/// `NaiveDate + TimeDelta::days(days)`: the date `days` days later. Both panic
/// outside the library's range, which `requires` leaves out.
#[verifier::external_body]
pub(crate) fn add_days(d: CivilDate, days: i64) -> (r: CivilDate)
    requires
        d.well_formed(),
        first_supported_day() <= d.day_number() + days <= last_supported_day(),
    ensures
        r.well_formed(),
        r.day_number() == d.day_number() + days,
{
    let n = chrono::NaiveDate::from_ymd_opt(d.year, d.month, d.day).unwrap();
    let m = n + chrono::TimeDelta::days(days);
    CivilDate { year: m.year(), month: m.month(), day: m.day() }
}

/// `NaiveDate::week(Weekday::Mon).checked_first_day()`: the Monday that starts
/// the week of `d`, or `None` where it falls before the library's range.
#[verifier::external_body]
pub(crate) fn week_first_day(d: CivilDate) -> (r: Option<CivilDate>)
    requires
        d.well_formed(),
    ensures
        match r {
            Some(m) => m.well_formed() && m.day_number() == d.day_number() - d.weekday(),
            None => d.day_number() - d.weekday() < first_supported_day(),
        },
{
    let n = chrono::NaiveDate::from_ymd_opt(d.year, d.month, d.day).unwrap();
    n.week(chrono::Weekday::Mon).checked_first_day().map(
        |m| CivilDate { year: m.year(), month: m.month(), day: m.day() },
    )
}

/// `NaiveDate::week(Weekday::Mon).checked_last_day()`: the Sunday that ends the
/// week of `d`, or `None` where it falls after the library's range.
#[verifier::external_body]
pub(crate) fn week_last_day(d: CivilDate) -> (r: Option<CivilDate>)
    requires
        d.well_formed(),
    ensures
        match r {
            Some(s) => s.well_formed() && s.day_number() == d.day_number() + 6 - d.weekday(),
            None => d.day_number() + 6 - d.weekday() > last_supported_day(),
        },
{
    let n = chrono::NaiveDate::from_ymd_opt(d.year, d.month, d.day).unwrap();
    n.week(chrono::Weekday::Mon).checked_last_day().map(
        |m| CivilDate { year: m.year(), month: m.month(), day: m.day() },
    )
}

/// `NaiveDate::format("%Y-%m-%d")`, written to a `String`.
#[verifier::external_body]
pub(crate) fn format_ymd(d: CivilDate) -> (r: String)
    requires
        d.well_formed(),
    ensures
        r@ == ymd_text(d),
{
    let n = chrono::NaiveDate::from_ymd_opt(d.year, d.month, d.day).unwrap();
    n.format("%Y-%m-%d").to_string()
}

/// The day number (days since 0001-01-01) of 1970-01-01, where timestamps count from.
pub open spec fn unix_epoch_day() -> int {
    719162
}

/// The day, in UTC, on which an instant falls.
pub open spec fn utc_day(t: ClockInstant) -> int {
    t.seconds / 86400 + unix_epoch_day()
}

/// The nanoseconds are ones that `DateTime::from_timestamp` accepts: below one
/// second, or below two seconds in the last second of a minute (a leap second).
pub open spec fn nanos_accepted(t: ClockInstant) -> bool {
    t.nanos < 2_000_000_000 && (t.nanos < 1_000_000_000 || t.seconds % 86400 % 60 == 59)
}

/// `DateTime::from_timestamp` accepts the instant: its UTC day lies in the
/// library's range and its nanoseconds are accepted.
pub open spec fn timestamp_accepted(t: ClockInstant) -> bool {
    first_supported_day() <= utc_day(t) <= last_supported_day() && nanos_accepted(t)
}

/// The instant's UTC day lies strictly inside the library's range, so that its
/// local day, at most one day away, lies in the range too.
pub open spec fn strictly_inside(t: ClockInstant) -> bool {
    first_supported_day() < utc_day(t) < last_supported_day()
}

/// `d` is the UTC day of `t` or a day next to it, as a local day is: a time
/// zone's offset from UTC is less than a day.
pub open spec fn near_utc_day(d: CivilDate, t: ClockInstant) -> bool {
    utc_day(t) - 1 <= d.day_number() <= utc_day(t) + 1
}

/// `s` starts with the text of day `d` followed by `T`, as RFC 3339 text does.
pub open spec fn rfc3339_starts_with_day(s: Seq<char>, d: CivilDate) -> bool {
    let day = ymd_text(d);
    s.len() > day.len() && s.take(day.len() as int) == day && s[day.len() as int] == 'T'
}

/// A reading of the system clock. Its field is private and only `local_now`
/// makes one, so the instant of a reading is an instant that the clock gave.
#[derive(Clone, Copy, Debug)]
pub struct ClockReading {
    instant: ClockInstant,
}

impl View for ClockReading {
    type V = ClockInstant;

    /// The instant that the clock gave.
    closed spec fn view(&self) -> ClockInstant {
        self.instant
    }
}

impl ClockReading {
    /// The instant that the clock gave.
    pub fn instant(&self) -> (r: ClockInstant)
        ensures
            r == self@,
    {
        self.instant
    }
}

/// `chrono::Local::now()`, read as seconds and nanoseconds since the epoch
/// (`timestamp` and `timestamp_subsec_nanos`). Which instant it is depends on
/// the clock; stated is only what holds of every `DateTime`: the two numbers
/// are ones that `DateTime::from_timestamp` accepts back.
#[verifier::external_body]
pub(crate) fn local_now() -> (r: ClockReading)
    ensures
        timestamp_accepted(r@),
{
    let t = chrono::Local::now();
    ClockReading { instant: ClockInstant { seconds: t.timestamp(), nanos: t.timestamp_subsec_nanos() } }
}

/// `chrono::Local.timestamp_opt(..).single()`, read as its local calendar day
/// (`date_naive`). `timestamp_opt` gives `None` exactly where
/// `DateTime::from_timestamp` refuses the numbers, here where the nanoseconds
/// are not accepted; `date_naive` panics where the local time leaves the
/// library's range, which `requires` leaves out. The day is a real day at most
/// one day from the UTC day; which one depends on the time zone, so no more
/// is stated.
#[verifier::external_body]
pub(crate) fn local_date_at(t: ClockInstant) -> (r: Option<CivilDate>)
    requires
        strictly_inside(t),
    ensures
        r is Some <==> nanos_accepted(t),
        r matches Some(d) ==> d.is_valid() && near_utc_day(d, t),
{
    chrono::Local.timestamp_opt(t.seconds, t.nanos).single().map(
        |dt| {
            let n = dt.date_naive();
            CivilDate { year: n.year(), month: n.month(), day: n.day() }
        },
    )
}

/// `DateTime::<Local>::to_rfc3339` of the instant made by
/// `chrono::Local.timestamp_opt(..).single()`: `None` exactly where the
/// nanoseconds are not accepted. The text starts with the local day, written
/// as `%Y-%m-%d` writes it, and `T`; the day is at most one day from the UTC
/// day. The time of day and the offset that follow depend on the time zone and
/// are not stated. `to_rfc3339` panics where the local time leaves the
/// library's range, which `requires` leaves out.
#[verifier::external_body]
pub(crate) fn rfc3339_at(t: ClockInstant) -> (r: Option<String>)
    requires
        strictly_inside(t),
    ensures
        r is Some <==> nanos_accepted(t),
        r matches Some(s) ==> exists|d: CivilDate|
            d.is_valid() && near_utc_day(d, t) && rfc3339_starts_with_day(s@, d),
{
    chrono::Local.timestamp_opt(t.seconds, t.nanos).single().map(|dt| dt.to_rfc3339())
}

} // verus!
