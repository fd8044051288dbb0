//! Reporting periods and the range of days, as `YYYY-MM-DD` text, that each one
//! covers.
use crate::calendar::{
    first_supported_day, last_supported_day, lemma_date_of_own_day_number,
    lemma_day_number_injective, lemma_next_month_start, lemma_range_bounds, month_length,
    monday_of, sunday_of, lemma_supported_day_values, CivilDate, MIN_YEAR, MAX_YEAR,
};
use vstd::arithmetic::div_mod::{lemma_fundamental_div_mod, lemma_fundamental_div_mod_converse};
use crate::chrono_bridge::{
    add_days, date_from_ymd, days_since, format_ymd, local_date_at, local_now, week_first_day,
    week_last_day, ClockInstant, max_delta_seconds, rfc3339_at, near_utc_day, nanos_accepted,
    rfc3339_starts_with_day, strictly_inside, timestamp_accepted, utc_day, ClockReading,
};
use crate::date_text::ymd_text;
use vstd::prelude::*;

verus! {

/// Time period for querying network statistics.
#[derive(Debug, Clone)]
pub enum TimePeriod {
    Today,
    Yesterday,
    ThisWeek,
    LastWeek,
    ThisMonth,
    LastMonth,
    ThisYear,
    LastYear,
    Custom { start_date: String, end_date: String },
}

/// Number of days in `month` of `year`.
pub fn days_in_month(year: i32, month: u32) -> (r: u32)
    requires
        1 <= month <= 12,
        MIN_YEAR <= year <= MAX_YEAR,
        month == 12 ==> year < MAX_YEAR,
    ensures
        r == month_length(year as int, month as int),
{
    let first = date_from_ymd(year, month, 1).unwrap();
    let next = if month == 12 {
        date_from_ymd(year + 1, 1, 1).unwrap()
    } else {
        date_from_ymd(year, month + 1, 1).unwrap()
    };
    proof {
        lemma_next_month_start(year as int, month as int);
    }
    days_since(next, first) as u32
}

/// The month before the month of `d`, as a year and a month.
pub open spec fn previous_month(d: CivilDate) -> (int, int) {
    if d.month == 1 {
        (d.year - 1, 12)
    } else {
        (d.year as int, d.month - 1)
    }
}

/// The first and last day that a period covers, for every period but `Custom`,
/// given the local day of now, of one day ago and of one week ago; `None` where a
/// day of the range falls outside the date library's range.
pub open spec fn period_days(
    period: TimePeriod,
    today: CivilDate,
    day_ago: CivilDate,
    week_ago: CivilDate,
) -> Option<(CivilDate, CivilDate)> {
    match period {
        TimePeriod::Today => Some((today, today)),
        TimePeriod::Yesterday => Some((day_ago, day_ago)),
        TimePeriod::ThisWeek => if today.day_number() - today.weekday() >= first_supported_day() {
            Some((monday_of(today), today))
        } else {
            None
        },
        TimePeriod::LastWeek => if week_ago.day_number() - week_ago.weekday()
            >= first_supported_day() && week_ago.day_number() + 6 - week_ago.weekday()
            <= last_supported_day() {
            Some((monday_of(week_ago), sunday_of(week_ago)))
        } else {
            None
        },
        TimePeriod::ThisMonth => Some((CivilDate { day: 1, ..today }, today)),
        TimePeriod::LastMonth => {
            let (y, m) = previous_month(today);
            if y >= MIN_YEAR {
                Some(
                    (
                        CivilDate { year: y as i32, month: m as u32, day: 1 },
                        CivilDate { year: y as i32, month: m as u32, day: month_length(y, m) as u32 },
                    ),
                )
            } else {
                None
            }
        },
        TimePeriod::ThisYear => Some((CivilDate { month: 1, day: 1, ..today }, today)),
        TimePeriod::LastYear => if today.year - 1 >= MIN_YEAR {
            Some(
                (
                    CivilDate { year: (today.year - 1) as i32, month: 1, day: 1 },
                    CivilDate { year: (today.year - 1) as i32, month: 12, day: 31 },
                ),
            )
        } else {
            None
        },
        TimePeriod::Custom { .. } => None,
    }
}

/// The range of a period as the text bounds that queries compare dates with.
pub open spec fn period_range_text(
    period: TimePeriod,
    today: CivilDate,
    day_ago: CivilDate,
    week_ago: CivilDate,
) -> Option<(Seq<char>, Seq<char>)> {
    match period {
        TimePeriod::Custom { start_date, end_date } => Some((start_date@, end_date@)),
        _ => match period_days(period, today, day_ago, week_ago) {
            Some((s, e)) => Some((ymd_text(s), ymd_text(e))),
            None => None,
        },
    }
}

/// The text form of an optional range, as the specs speak of it.
pub open spec fn range_view(r: Option<(String, String)>) -> Option<(Seq<char>, Seq<char>)> {
    match r {
        Some((s, e)) => Some((s@, e@)),
        None => None,
    }
}

/// The range of days that `period` covers, given the local day of now
/// (`today`), of the instant one day earlier (`day_ago`) and of the instant one
/// week earlier (`week_ago`).
pub fn date_range_on(
    period: &TimePeriod,
    today: CivilDate,
    day_ago: CivilDate,
    week_ago: CivilDate,
) -> (r: Option<(String, String)>)
    requires
        today.well_formed(),
        day_ago.well_formed(),
        week_ago.well_formed(),
    ensures
        range_view(r) == period_range_text(*period, today, day_ago, week_ago),
{
    match period {
        TimePeriod::Today => single_day_range(today),
        TimePeriod::Yesterday => single_day_range(day_ago),
        TimePeriod::ThisWeek => this_week_range(today),
        TimePeriod::LastWeek => last_week_range(week_ago),
        TimePeriod::ThisMonth => {
            let start = date_from_ymd(today.year, today.month, 1).unwrap();
            Some((format_ymd(start), format_ymd(today)))
        },
        TimePeriod::LastMonth => last_month_range(today),
        TimePeriod::ThisYear => {
            let start = date_from_ymd(today.year, 1, 1).unwrap();
            Some((format_ymd(start), format_ymd(today)))
        },
        TimePeriod::LastYear => last_year_range(today),
        TimePeriod::Custom { start_date, end_date } => Some((start_date.clone(), end_date.clone())),
    }
}

fn single_day_range(d: CivilDate) -> (r: Option<(String, String)>)
    requires
        d.well_formed(),
    ensures
        range_view(r) == Some((ymd_text(d), ymd_text(d))),
{
    let t = format_ymd(d);
    let t2 = t.clone();
    Some((t, t2))
}

fn this_week_range(today: CivilDate) -> (r: Option<(String, String)>)
    requires
        today.well_formed(),
    ensures
        range_view(r) == (if today.day_number() - today.weekday() >= first_supported_day() {
            Some((ymd_text(monday_of(today)), ymd_text(today)))
        } else {
            None
        }),
{
    match week_first_day(today) {
        Some(monday) => {
            proof {
                lemma_same_date_as_shift(monday, today, -today.weekday());
                lemma_range_bounds(monday);
            }
            Some((format_ymd(monday), format_ymd(today)))
        },
        None => None,
    }
}

fn last_week_range(week_ago: CivilDate) -> (r: Option<(String, String)>)
    requires
        week_ago.well_formed(),
    ensures
        range_view(r) == (if week_ago.day_number() - week_ago.weekday() >= first_supported_day()
            && week_ago.day_number() + 6 - week_ago.weekday() <= last_supported_day() {
            Some((ymd_text(monday_of(week_ago)), ymd_text(sunday_of(week_ago))))
        } else {
            None
        }),
{
    let first = week_first_day(week_ago);
    let last = week_last_day(week_ago);
    match (first, last) {
        (Some(monday), Some(sunday)) => {
            proof {
                lemma_same_date_as_shift(monday, week_ago, -week_ago.weekday());
                lemma_same_date_as_shift(sunday, week_ago, 6 - week_ago.weekday());
                lemma_range_bounds(monday);
                lemma_range_bounds(sunday);
            }
            Some((format_ymd(monday), format_ymd(sunday)))
        },
        _ => None,
    }
}

fn last_month_range(today: CivilDate) -> (r: Option<(String, String)>)
    requires
        today.well_formed(),
    ensures
        range_view(r) == ({
            let (y, m) = previous_month(today);
            if y >= MIN_YEAR {
                Some(
                    (
                        ymd_text(CivilDate { year: y as i32, month: m as u32, day: 1 }),
                        ymd_text(
                            CivilDate {
                                year: y as i32,
                                month: m as u32,
                                day: month_length(y, m) as u32,
                            },
                        ),
                    ),
                )
            } else {
                None
            }
        }),
{
    let first = if today.month == 1 {
        date_from_ymd(today.year - 1, 12, 1)
    } else {
        date_from_ymd(today.year, today.month - 1, 1)
    };
    match first {
        Some(last_month) => {
            let length = days_in_month(last_month.year, last_month.month);
            proof {
                lemma_range_bounds(last_month);
                lemma_next_month_start(last_month.year as int, last_month.month as int);
                let target = CivilDate { day: length, ..last_month };
                lemma_range_bounds(target);
            }
            let end = add_days(last_month, length as i64 - 1);
            proof {
                let target = CivilDate { day: length, ..last_month };
                lemma_day_number_injective(end, target);
            }
            Some((format_ymd(last_month), format_ymd(end)))
        },
        None => None,
    }
}

fn last_year_range(today: CivilDate) -> (r: Option<(String, String)>)
    requires
        today.well_formed(),
    ensures
        range_view(r) == (if today.year - 1 >= MIN_YEAR {
            Some(
                (
                    ymd_text(CivilDate { year: (today.year - 1) as i32, month: 1, day: 1 }),
                    ymd_text(CivilDate { year: (today.year - 1) as i32, month: 12, day: 31 }),
                ),
            )
        } else {
            None
        }),
{
    if today.year > MIN_YEAR {
        let start = date_from_ymd(today.year - 1, 1, 1).unwrap();
        let end = date_from_ymd(today.year - 1, 12, 31).unwrap();
        Some((format_ymd(start), format_ymd(end)))
    } else {
        None
    }
}

/// The instant `days` days before `t`, as `DateTime - TimeDelta::days(days)`
/// computes it; `None` where that span does not fit in a `TimeDelta` or the
/// seconds leave the `i64` range (where the date library panics).
pub open spec fn shifted_instant(t: ClockInstant, days: i64) -> Option<ClockInstant> {
    if -max_delta_seconds() <= days * 86400 <= max_delta_seconds() && i64::MIN <= t.seconds - days
        * 86400 <= i64::MAX {
        Some(ClockInstant { seconds: (t.seconds - days * 86400) as i64, nanos: t.nanos })
    } else {
        None
    }
}

/// Shifting an instant by whole days shifts its UTC day by as many days.
pub proof fn lemma_shift_moves_utc_day(t: ClockInstant, days: i64)
    requires
        shifted_instant(t, days) is Some,
    ensures
        utc_day(shifted_instant(t, days)->0) == utc_day(t) - days,
        nanos_accepted(t) ==> nanos_accepted(shifted_instant(t, days)->0),
{
    let s = t.seconds as int;
    lemma_fundamental_div_mod(s, 86400);
    let q = s / 86400;
    let r = s % 86400;
    lemma_fundamental_div_mod_converse(s - days * 86400, 86400, q - days, r);
}

/// The instant `days` days before `t`, as `DateTime - TimeDelta::days(days)`
/// computes it; `None` where that span does not fit in a `TimeDelta` or the
/// seconds leave the `i64` range (where the date library panics).
pub fn instant_days_before(t: ClockInstant, days: i64) -> (r: Option<ClockInstant>)
    ensures
        r == shifted_instant(t, days),
{
    if days < -106751991167 || days > 106751991167 {
        return None;
    }
    let span = days * 86400;
    if span > 9223372036854775 || span < -9223372036854775 {
        return None;
    }
    match t.seconds.checked_sub(span) {
        Some(seconds) => Some(ClockInstant { seconds, nanos: t.nanos }),
        None => None,
    }
}

/// Whether the instant's UTC day lies strictly inside the date library's range.
fn inside_supported_range(t: ClockInstant) -> (r: bool)
    ensures
        r == strictly_inside(t),
{
    proof {
        lemma_supported_day_values();
        lemma_fundamental_div_mod(t.seconds as int, 86400);
    }
    -8334601142400 <= t.seconds && t.seconds < 8210266790400
}

/// The local calendar day of an instant, where the date library can hold it:
/// for instants whose UTC day lies strictly inside the library's range and
/// whose nanoseconds the library accepts. The day is at most one day from the
/// UTC day.
fn supported_local_date(t: ClockInstant) -> (r: Option<CivilDate>)
    ensures
        r is Some <==> strictly_inside(t) && nanos_accepted(t),
        r matches Some(d) ==> d.well_formed() && near_utc_day(d, t),
{
    if !inside_supported_range(t) {
        return None;
    }
    match local_date_at(t) {
        Some(d) => {
            proof {
                lemma_range_bounds(d);
            }
            Some(d)
        },
        None => None,
    }
}

/// The local day of the instant `days` days before `now`: `None` where that
/// instant cannot be formed, and otherwise as `supported_local_date` gives it.
pub fn local_date_days_before(now: ClockInstant, days: i64) -> (r: Option<CivilDate>)
    ensures
        match shifted_instant(now, days) {
            None => r is None,
            Some(t) => (r is Some <==> strictly_inside(t) && nanos_accepted(t)) && (r matches Some(d)
                ==> d.well_formed() && near_utc_day(d, t)),
        },
{
    match instant_days_before(now, days) {
        Some(t) => supported_local_date(t),
        None => None,
    }
}

/// The clock reading `now` lets `period` read the local days it needs: the
/// instant itself and, for `Yesterday` and `LastWeek`, the instant one day or
/// one week earlier, each with its UTC day strictly inside the date library's
/// range and nanoseconds that the library accepts.
pub open spec fn reading_usable(period: TimePeriod, now: ClockInstant) -> bool {
    &&& strictly_inside(now) && nanos_accepted(now)
    &&& period is Yesterday ==> (shifted_instant(now, 1) matches Some(t) && strictly_inside(t))
    &&& period is LastWeek ==> (shifted_instant(now, 7) matches Some(t) && strictly_inside(t))
}

/// `today`, `day_ago` and `week_ago` are the local days read off `now` for
/// `period`: the day of `now`; for `Yesterday` the day of the instant one day
/// earlier and for `LastWeek` that of the instant one week earlier (each at
/// most one day from its instant's UTC day), and `today` where the period
/// does not read them.
pub open spec fn days_read(
    period: TimePeriod,
    now: ClockInstant,
    today: CivilDate,
    day_ago: CivilDate,
    week_ago: CivilDate,
) -> bool {
    &&& today.well_formed() && near_utc_day(today, now)
    &&& if period is Yesterday {
        day_ago.well_formed() && near_utc_day(day_ago, shifted_instant(now, 1)->0)
    } else {
        day_ago == today
    }
    &&& if period is LastWeek {
        week_ago.well_formed() && near_utc_day(week_ago, shifted_instant(now, 7)->0)
    } else {
        week_ago == today
    }
}

/// What reading the range of `period` at the clock reading `now` gives: a
/// `Custom` period's own bounds; otherwise `None` where the reading is not
/// usable, and else the range of the days read off it (`None` where one of the
/// range's days falls outside the date library's range).
pub open spec fn range_read_at(
    period: TimePeriod,
    now: ClockInstant,
    r: Option<(Seq<char>, Seq<char>)>,
) -> bool {
    match period {
        TimePeriod::Custom { start_date, end_date } => r == Some((start_date@, end_date@)),
        _ => if reading_usable(period, now) {
            exists|today: CivilDate, day_ago: CivilDate, week_ago: CivilDate|
                days_read(period, now, today, day_ago, week_ago) && r == period_range_text(
                    period,
                    today,
                    day_ago,
                    week_ago,
                )
        } else {
            r is None
        },
    }
}

/// The date range of `period` at the clock reading `now`: a `Custom` period is
/// passed through; `Today`, `ThisWeek`, `ThisMonth`, `ThisYear`, `LastMonth`
/// and `LastYear` read the local day of `now`, `Yesterday` that of the instant
/// one day earlier and `LastWeek` that of the instant one week earlier.
pub fn date_range_at(period: &TimePeriod, now: ClockInstant) -> (r: Option<(String, String)>)
    ensures
        range_read_at(*period, now, range_view(r)),
{
    let epoch_day = CivilDate { year: 1, month: 1, day: 1 };
    if let TimePeriod::Custom { .. } = period {
        return date_range_on(period, epoch_day, epoch_day, epoch_day);
    }
    let today = match supported_local_date(now) {
        Some(d) => d,
        None => return None,
    };
    let day_ago = if let TimePeriod::Yesterday = period {
        proof {
            if shifted_instant(now, 1) is Some {
                lemma_shift_moves_utc_day(now, 1);
            }
        }
        match local_date_days_before(now, 1) {
            Some(d) => d,
            None => return None,
        }
    } else {
        today
    };
    let week_ago = if let TimePeriod::LastWeek = period {
        proof {
            if shifted_instant(now, 7) is Some {
                lemma_shift_moves_utc_day(now, 7);
            }
        }
        match local_date_days_before(now, 7) {
            Some(d) => d,
            None => return None,
        }
    } else {
        today
    };
    let r = date_range_on(period, today, day_ago, week_ago);
    proof {
        assert(days_read(*period, now, today, day_ago, week_ago));
    }
    r
}

/// Calculate date range based on time period, reading the local clock once:
/// the range that `date_range_at` gives for the instant of the reading taken
/// (a `ClockReading`, which only the clock makes).
pub fn calculate_date_range(period: &TimePeriod) -> (r: Option<(String, String)>)
    ensures
        period matches TimePeriod::Custom { start_date, end_date } ==> range_view(r) == Some(
            (start_date@, end_date@),
        ),
        exists|reading: ClockReading|
            #![trigger range_read_at(*period, reading@, range_view(r))]
            timestamp_accepted(reading@) && range_read_at(*period, reading@, range_view(r)),
{
    let reading = local_now();
    date_range_at(period, reading.instant())
}

/// What reading today's date at `now` gives: the text of a day at most one day
/// from the UTC day of `now`, where the UTC day lies strictly inside the date
/// library's range and the nanoseconds are accepted, and otherwise `None`.
pub open spec fn today_read_at(now: ClockInstant, r: Option<Seq<char>>) -> bool {
    &&& r is Some <==> strictly_inside(now) && nanos_accepted(now)
    &&& r matches Some(s) ==> exists|d: CivilDate|
        d.well_formed() && near_utc_day(d, now) && s == ymd_text(d)
}

/// What reading the RFC 3339 time at `now` gives: text that starts with a day at
/// most one day from the UTC day of `now` and `T`, where the UTC day lies
/// strictly inside the date library's range and the nanoseconds are accepted,
/// and otherwise `None`.
pub open spec fn stamp_read_at(now: ClockInstant, r: Option<Seq<char>>) -> bool {
    &&& r is Some <==> strictly_inside(now) && nanos_accepted(now)
    &&& r matches Some(s) ==> exists|d: CivilDate|
        d.is_valid() && near_utc_day(d, now) && rfc3339_starts_with_day(s, d)
}

/// What reading the cleanup cutoff for `days_to_keep` at `now` gives: `None`
/// where the instant `days_to_keep` days earlier cannot be formed or its UTC
/// day is not strictly inside the date library's range (or its nanoseconds are
/// not accepted), and otherwise the text of a day at most one day from that UTC
/// day, which lies `days_to_keep` days before the UTC day of `now`.
pub open spec fn cutoff_read_at(now: ClockInstant, days_to_keep: i64, r: Option<Seq<char>>) -> bool {
    match shifted_instant(now, days_to_keep) {
        None => r is None,
        Some(t) => {
            &&& r is Some <==> strictly_inside(t) && nanos_accepted(t)
            &&& r matches Some(s) ==> exists|d: CivilDate|
                d.well_formed() && utc_day(now) - days_to_keep - 1 <= d.day_number() <= utc_day(now)
                    - days_to_keep + 1 && s == ymd_text(d)
        },
    }
}

/// The text form of an optional string, as the specs speak of it.
pub open spec fn text_view(r: Option<String>) -> Option<Seq<char>> {
    match r {
        Some(s) => Some(s@),
        None => None,
    }
}

/// The local date of the clock reading `now` as `YYYY-MM-DD`.
pub fn today_text_at(now: ClockInstant) -> (r: Option<String>)
    ensures
        today_read_at(now, text_view(r)),
{
    match supported_local_date(now) {
        Some(d) => Some(format_ymd(d)),
        None => None,
    }
}

/// The local time of the clock reading `now` in RFC 3339 form.
pub fn now_rfc3339_at(now: ClockInstant) -> (r: Option<String>)
    ensures
        stamp_read_at(now, text_view(r)),
{
    if inside_supported_range(now) {
        rfc3339_at(now)
    } else {
        None
    }
}

/// The day before which logs are deleted when `days_to_keep` days are kept, at
/// the clock reading `now`: the local day of the instant `days_to_keep` days
/// earlier, as `YYYY-MM-DD`.
pub fn cleanup_cutoff_at(now: ClockInstant, days_to_keep: i64) -> (r: Option<String>)
    ensures
        cutoff_read_at(now, days_to_keep, text_view(r)),
{
    proof {
        if shifted_instant(now, days_to_keep) is Some {
            lemma_shift_moves_utc_day(now, days_to_keep);
        }
    }
    match local_date_days_before(now, days_to_keep) {
        Some(d) => Some(format_ymd(d)),
        None => None,
    }
}

/// A date found at a given distance from another is the spec's shifted date.
proof fn lemma_same_date_as_shift(found: CivilDate, base: CivilDate, days: int)
    requires
        found.well_formed(),
        found.day_number() == base.day_number() + days,
    ensures
        found == crate::calendar::shift_days(base, days),
{
    lemma_date_of_own_day_number(found);
}

} // verus!
