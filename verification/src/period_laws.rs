//! What the reporting periods promise: every range runs forward, the current
//! periods end today, the last week is a whole Monday-to-Sunday week around the
//! day a week ago, and the last month and last year end the day before the
//! current ones begin.
use crate::calendar::{
    first_supported_day, last_supported_day, lemma_day_order_is_lexicographic, lemma_next_month_start,
    lemma_range_bounds, lemma_shift_days, lemma_weekday_of_number, lemma_year_length,
    month_length, monday_of, sunday_of, CivilDate, MIN_YEAR,
};
use crate::date_text::{
    lemma_ymd_bytes_order, lemma_ymd_chars_bytes, lemma_ymd_text_chars, text_le, ymd_text,
};
use crate::ledger::within;
use crate::period::{period_days, period_range_text, previous_month, TimePeriod};
use vstd::prelude::*;

verus! {

/// The Monday of a date's week is a Monday at most six days before it.
pub proof fn lemma_monday_of(d: CivilDate)
    requires
        d.well_formed(),
        d.day_number() - d.weekday() >= first_supported_day(),
    ensures
        monday_of(d).well_formed(),
        monday_of(d).day_number() == d.day_number() - d.weekday(),
        monday_of(d).weekday() == 0,
        0 <= d.day_number() - monday_of(d).day_number() <= 6,
{
    lemma_range_bounds(d);
    lemma_shift_days(d, -d.weekday());
    lemma_weekday_of_number(d.day_number(), 0);
}

/// The Sunday of a date's week is a Sunday at most six days after it.
pub proof fn lemma_sunday_of(d: CivilDate)
    requires
        d.well_formed(),
        d.day_number() + 6 - d.weekday() <= last_supported_day(),
    ensures
        sunday_of(d).well_formed(),
        sunday_of(d).day_number() == d.day_number() + 6 - d.weekday(),
        sunday_of(d).weekday() == 6,
        0 <= sunday_of(d).day_number() - d.day_number() <= 6,
{
    lemma_range_bounds(d);
    lemma_shift_days(d, 6 - d.weekday());
    lemma_weekday_of_number(d.day_number(), 6);
}

/// Every period's range consists of two real days, the first not after the last.
pub proof fn lemma_period_range_ordered(
    period: TimePeriod,
    today: CivilDate,
    day_ago: CivilDate,
    week_ago: CivilDate,
)
    requires
        today.well_formed(),
        day_ago.well_formed(),
        week_ago.well_formed(),
    ensures
        period_days(period, today, day_ago, week_ago) matches Some((s, e)) ==> s.well_formed()
            && e.well_formed() && s.day_number() <= e.day_number(),
{
    match period {
        TimePeriod::ThisWeek => {
            if today.day_number() - today.weekday() >= first_supported_day() {
                lemma_monday_of(today);
            }
        },
        TimePeriod::LastWeek => {
            lemma_last_week_is_whole_week(today, day_ago, week_ago);
        },
        TimePeriod::ThisMonth => {
            lemma_current_periods_end_today(period, today, day_ago, week_ago);
        },
        TimePeriod::ThisYear => {
            lemma_current_periods_end_today(period, today, day_ago, week_ago);
        },
        TimePeriod::LastMonth => {
            lemma_last_month_ends_before_this_month(today, day_ago, week_ago);
        },
        TimePeriod::LastYear => {
            lemma_last_year_ends_before_this_year(today, day_ago, week_ago);
        },
        _ => {},
    }
}

/// The current periods (today, this week, this month, this year) end today and
/// start on the first day of the week (a Monday), month or year that holds today.
pub proof fn lemma_current_periods_end_today(
    period: TimePeriod,
    today: CivilDate,
    day_ago: CivilDate,
    week_ago: CivilDate,
)
    requires
        today.well_formed(),
        period is Today || period is ThisWeek || period is ThisMonth || period is ThisYear,
    ensures
        period_days(period, today, day_ago, week_ago) is Some <==> (period is ThisWeek
            ==> today.day_number() - today.weekday() >= first_supported_day()),
        period_days(period, today, day_ago, week_ago) matches Some((s, e)) ==> {
            &&& e == today
            &&& s.well_formed()
            &&& s.day_number() <= today.day_number()
            &&& period is ThisWeek ==> s.weekday() == 0 && today.day_number() - s.day_number() <= 6
            &&& period is ThisMonth ==> s.year == today.year && s.month == today.month && s.day == 1
            &&& period is ThisYear ==> s.year == today.year && s.month == 1 && s.day == 1
        },
{
    if period is ThisWeek && today.day_number() - today.weekday() >= first_supported_day() {
        lemma_monday_of(today);
    }
}

/// `Today` is the single day of now and `Yesterday` the single day one day
/// ago, always.
pub proof fn lemma_single_day_periods(today: CivilDate, day_ago: CivilDate, week_ago: CivilDate)
    ensures
        period_range_text(TimePeriod::Today, today, day_ago, week_ago) == Some(
            (ymd_text(today), ymd_text(today)),
        ),
        period_range_text(TimePeriod::Yesterday, today, day_ago, week_ago) == Some(
            (ymd_text(day_ago), ymd_text(day_ago)),
        ),
{
}

/// This week runs from the Monday of today's week to today, whenever that
/// Monday lies in the date library's range (also when it lies in another
/// month or year): the range exists and its text bounds are that Monday's and
/// today's.
pub proof fn lemma_this_week_runs_monday_to_today(
    today: CivilDate,
    day_ago: CivilDate,
    week_ago: CivilDate,
)
    requires
        today.well_formed(),
        today.day_number() - today.weekday() >= first_supported_day(),
    ensures
        exists|monday: CivilDate|
            {
                &&& monday.well_formed()
                &&& monday.weekday() == 0
                &&& 0 <= today.day_number() - monday.day_number() <= 6
                &&& #[trigger] period_range_text(TimePeriod::ThisWeek, today, day_ago, week_ago)
                    == Some((ymd_text(monday), ymd_text(today)))
            },
{
    lemma_monday_of(today);
    let monday = monday_of(today);
    assert(period_range_text(TimePeriod::ThisWeek, today, day_ago, week_ago) == Some(
        (ymd_text(monday), ymd_text(today)),
    ));
}

/// Last week runs from a Monday to the Sunday six days later, and holds the day
/// one week ago.
pub proof fn lemma_last_week_is_whole_week(today: CivilDate, day_ago: CivilDate, week_ago: CivilDate)
    requires
        week_ago.well_formed(),
    ensures
        period_days(TimePeriod::LastWeek, today, day_ago, week_ago) is Some <==> (
        week_ago.day_number() - week_ago.weekday() >= first_supported_day()
            && week_ago.day_number() + 6 - week_ago.weekday() <= last_supported_day()),
        period_days(TimePeriod::LastWeek, today, day_ago, week_ago) matches Some((s, e)) ==> {
            &&& s.well_formed() && e.well_formed()
            &&& s.weekday() == 0 && e.weekday() == 6
            &&& e.day_number() - s.day_number() == 6
            &&& s.day_number() <= week_ago.day_number() <= e.day_number()
        },
{
    if week_ago.day_number() - week_ago.weekday() >= first_supported_day() && week_ago.day_number()
        + 6 - week_ago.weekday() <= last_supported_day() {
        lemma_monday_of(week_ago);
        lemma_sunday_of(week_ago);
    }
}

/// Last month is the whole month before today's: it starts on its first day and
/// ends the day before today's month begins.
pub proof fn lemma_last_month_ends_before_this_month(
    today: CivilDate,
    day_ago: CivilDate,
    week_ago: CivilDate,
)
    requires
        today.well_formed(),
    ensures
        period_days(TimePeriod::LastMonth, today, day_ago, week_ago) is Some <==> !(today.year
            == MIN_YEAR && today.month == 1),
        period_days(TimePeriod::LastMonth, today, day_ago, week_ago) matches Some((s, e)) ==> {
            &&& s.well_formed() && e.well_formed()
            &&& today.month == 1 ==> s.year == today.year - 1 && s.month == 12
            &&& today.month > 1 ==> s.year == today.year && s.month == today.month - 1
            &&& s.day == 1 && s.year == e.year && s.month == e.month
            &&& (s.year as int, s.month as int) == previous_month(today)
            &&& e.day_number() - s.day_number() + 1 == month_length(s.year as int, s.month as int)
            &&& e.day_number() + 1 == (CivilDate { day: 1, ..today }).day_number()
        },
{
    let (y, m) = previous_month(today);
    lemma_next_month_start(y, m);
    if today.month == 1 {
        lemma_year_length(y);
    }
}

/// Last year runs from its 1 January to its 31 December, the day before
/// today's year begins.
pub proof fn lemma_last_year_ends_before_this_year(
    today: CivilDate,
    day_ago: CivilDate,
    week_ago: CivilDate,
)
    requires
        today.well_formed(),
    ensures
        period_days(TimePeriod::LastYear, today, day_ago, week_ago) is Some <==> today.year
            > MIN_YEAR,
        period_days(TimePeriod::LastYear, today, day_ago, week_ago) matches Some((s, e)) ==> {
            &&& s.well_formed() && e.well_formed()
            &&& s.year == today.year - 1 && e.year == today.year - 1
            &&& s.day_number() <= e.day_number()
            &&& e.day_number() + 1 == (CivilDate { month: 1, day: 1, ..today }).day_number()
        },
{
    lemma_year_length(today.year - 1);
    lemma_next_month_start(today.year - 1, 12);
}

/// For days of the years 0 to 9999, the `YYYY-MM-DD` text that the table
/// stores sorts exactly like the days themselves.
pub proof fn lemma_ymd_text_sorts_like_days(a: CivilDate, b: CivilDate)
    requires
        a.is_valid(),
        b.is_valid(),
        0 <= a.year <= 9999,
        0 <= b.year <= 9999,
    ensures
        text_le(ymd_text(a), ymd_text(b)) <==> a.day_number() <= b.day_number(),
{
    lemma_ymd_text_chars(a);
    lemma_ymd_text_chars(b);
    lemma_ymd_chars_bytes(a.year as int, a.month as int, a.day as int);
    lemma_ymd_chars_bytes(b.year as int, b.month as int, b.day as int);
    lemma_ymd_bytes_order(
        a.year as int,
        a.month as int,
        a.day as int,
        b.year as int,
        b.month as int,
        b.day as int,
    );
    lemma_day_order_is_lexicographic(a, b);
}

/// A row stored under the text of day `x` falls in a period's text range
/// exactly when `x` lies between the period's first and last day.
pub proof fn lemma_period_range_selects_its_days(
    period: TimePeriod,
    today: CivilDate,
    day_ago: CivilDate,
    week_ago: CivilDate,
    x: CivilDate,
)
    requires
        today.well_formed(),
        day_ago.well_formed(),
        week_ago.well_formed(),
        x.is_valid(),
        0 <= x.year <= 9999,
        period_days(period, today, day_ago, week_ago) matches Some((s, e)) && 0 <= s.year <= 9999
            && 0 <= e.year <= 9999,
    ensures
        period_days(period, today, day_ago, week_ago) matches Some((s, e)) && (within(
            ymd_text(x),
            ymd_text(s),
            ymd_text(e),
        ) <==> s.day_number() <= x.day_number() <= e.day_number()),
{
    lemma_period_range_ordered(period, today, day_ago, week_ago);
    let (s, e) = period_days(period, today, day_ago, week_ago)->0;
    lemma_ymd_text_sorts_like_days(s, x);
    lemma_ymd_text_sorts_like_days(x, e);
}

/// Every range of a period other than `Custom` ends no later than today, given
/// that the day one day ago is not after today and the day one week ago is at
/// least six days before it (as for one clock reading without a change of the
/// time zone's offset in between).
pub proof fn lemma_ranges_end_by_today(
    period: TimePeriod,
    today: CivilDate,
    day_ago: CivilDate,
    week_ago: CivilDate,
)
    requires
        today.well_formed(),
        day_ago.well_formed(),
        week_ago.well_formed(),
        day_ago.day_number() <= today.day_number(),
        week_ago.day_number() + 6 <= today.day_number(),
    ensures
        period_days(period, today, day_ago, week_ago) matches Some((s, e)) ==> e.day_number()
            <= today.day_number(),
{
    match period {
        TimePeriod::LastWeek => {
            lemma_last_week_is_whole_week(today, day_ago, week_ago);
        },
        TimePeriod::LastMonth => {
            lemma_last_month_ends_before_this_month(today, day_ago, week_ago);
        },
        TimePeriod::LastYear => {
            lemma_last_year_ends_before_this_year(today, day_ago, week_ago);
        },
        TimePeriod::ThisWeek => {
            lemma_current_periods_end_today(period, today, day_ago, week_ago);
        },
        _ => {},
    }
}

} // verus!
