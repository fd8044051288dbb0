//! What the clock-reading operations promise of the reading they take: today's
//! range is the single local day of the reading, last week is the Monday to
//! Sunday week around the day one week before it, and a cleanup keeps every
//! day from `days_to_keep` days before the reading on and removes the days
//! before that (give or take the day by which a time zone moves the date).
use crate::calendar::{
    first_supported_day, last_supported_day, lemma_day_order_is_lexicographic, CivilDate,
};
use crate::chrono_bridge::{nanos_accepted, near_utc_day, strictly_inside, utc_day, ClockInstant};
use crate::date_text::{
    lemma_bytes_le_reflexive, lemma_text_le_antisymmetric, text_bytes, text_le, ymd_text,
};
use crate::ledger::{
    in_window, lemma_rows_where_subset, not_before_cutoff, records_of, rows_where, within,
    LedgerError, LogRecord, NetworkLog,
};
use crate::period::{
    cutoff_read_at, days_read, lemma_shift_moves_utc_day, period_range_text, range_read_at,
    reading_usable, shifted_instant, TimePeriod,
};
use crate::period_laws::{lemma_last_week_is_whole_week, lemma_ymd_text_sorts_like_days};
use crate::usage::{
    cleaned_at, logs_for_range, logs_read_at, stats_for_range, stats_of, stats_read_at,
    NetworkStats,
};
use vstd::prelude::*;

verus! {

/// At a clock reading, `Today` is one single day, the local day of the
/// reading (at most one day from its UTC day), and it is there exactly when the
/// date library can place the reading.
pub proof fn lemma_today_at_reading(now: ClockInstant, r: Option<(Seq<char>, Seq<char>)>)
    requires
        range_read_at(TimePeriod::Today, now, r),
    ensures
        r is Some <==> strictly_inside(now) && nanos_accepted(now),
        r matches Some((a, b)) ==> a == b && exists|d: CivilDate|
            #![trigger ymd_text(d)]
            d.well_formed() && near_utc_day(d, now) && a == ymd_text(d),
{
    if reading_usable(TimePeriod::Today, now) {
        let (t, da, wa) = choose|t: CivilDate, da: CivilDate, wa: CivilDate|
            days_read(TimePeriod::Today, now, t, da, wa) && r == period_range_text(
                TimePeriod::Today,
                t,
                da,
                wa,
            );
        assert(r == Some((ymd_text(t), ymd_text(t))));
        assert(ymd_text(t) == ymd_text(t));
    }
}

/// At a clock reading that the date library can place, the daily logs of
/// `Today` list exactly the rows dated the local day of the reading.
pub proof fn lemma_today_logs_at_reading(
    rows: Seq<LogRecord>,
    now: ClockInstant,
    r: Result<Vec<NetworkLog>, LedgerError>,
)
    requires
        logs_read_at(rows, TimePeriod::Today, now, r),
        strictly_inside(now),
        nanos_accepted(now),
    ensures
        r is Ok,
        exists|d: CivilDate|
            #![trigger ymd_text(d)]
            d.well_formed() && near_utc_day(d, now) && forall|x: LogRecord|
                #[trigger] records_of(r->Ok_0@).contains(x) <==> rows.contains(x) && x.date
                    == ymd_text(d),
{
    let range = choose|range: Option<(Seq<char>, Seq<char>)>|
        range_read_at(TimePeriod::Today, now, range) && logs_for_range(rows, range, r);
    lemma_today_at_reading(now, range);
    let (t, t2) = range->0;
    let d = choose|d: CivilDate| d.well_formed() && near_utc_day(d, now) && t == ymd_text(d);
    lemma_rows_where_subset(rows, in_window(t, t));
    let listed = records_of(r->Ok_0@);
    assert forall|x: LogRecord| #[trigger] listed.contains(x) <==> rows.contains(x) && x.date
        == ymd_text(d) by {
        if x.date == t {
            lemma_bytes_le_reflexive(text_bytes(t));
            assert(within(x.date, t, t));
        }
        if within(x.date, t, t) {
            lemma_text_le_antisymmetric(x.date, t);
        }
    }
    assert(ymd_text(d) == t);
}

/// At a clock reading, `LastWeek` is a whole Monday-to-Sunday week that holds
/// a day within one day of the UTC day one week before the reading. It is there
/// whenever the reading and the instant one week before it can be placed and
/// that week lies in the date library's range.
pub proof fn lemma_last_week_at_reading(now: ClockInstant, r: Option<(Seq<char>, Seq<char>)>)
    requires
        range_read_at(TimePeriod::LastWeek, now, r),
    ensures
        r is Some ==> reading_usable(TimePeriod::LastWeek, now),
        reading_usable(TimePeriod::LastWeek, now) && first_supported_day() <= utc_day(now) - 14
            ==> r is Some,
        r matches Some((a, b)) ==> exists|monday: CivilDate, sunday: CivilDate|
            #![trigger ymd_text(monday), ymd_text(sunday)]
            {
                &&& monday.well_formed() && sunday.well_formed()
                &&& monday.weekday() == 0 && sunday.weekday() == 6
                &&& sunday.day_number() == monday.day_number() + 6
                &&& utc_day(now) - 8 <= sunday.day_number()
                &&& monday.day_number() <= utc_day(now) - 6
                &&& a == ymd_text(monday) && b == ymd_text(sunday)
            },
{
    if reading_usable(TimePeriod::LastWeek, now) {
        let (t, da, wa) = choose|t: CivilDate, da: CivilDate, wa: CivilDate|
            days_read(TimePeriod::LastWeek, now, t, da, wa) && r == period_range_text(
                TimePeriod::LastWeek,
                t,
                da,
                wa,
            );
        lemma_shift_moves_utc_day(now, 7);
        assert(utc_day(shifted_instant(now, 7)->0) == utc_day(now) - 7);
        lemma_last_week_is_whole_week(t, da, wa);
        if r is Some {
            let (s, e) = crate::period::period_days(TimePeriod::LastWeek, t, da, wa)->0;
            assert(r == Some((ymd_text(s), ymd_text(e))));
        }
    }
}

/// At a clock reading, the statistics of `LastWeek` are those of a whole
/// Monday-to-Sunday week that holds a day within one day of the UTC day one
/// week before the reading.
pub proof fn lemma_last_week_stats_at_reading(
    rows: Seq<LogRecord>,
    now: ClockInstant,
    r: Result<NetworkStats, LedgerError>,
)
    requires
        stats_read_at(rows, TimePeriod::LastWeek, now, r),
        r is Ok,
    ensures
        stats_of(rows, r->Ok_0),
        exists|monday: CivilDate, sunday: CivilDate|
            #![trigger ymd_text(monday), ymd_text(sunday)]
            {
                &&& monday.well_formed() && sunday.well_formed()
                &&& monday.weekday() == 0 && sunday.weekday() == 6
                &&& sunday.day_number() == monday.day_number() + 6
                &&& utc_day(now) - 8 <= sunday.day_number()
                &&& monday.day_number() <= utc_day(now) - 6
                &&& r->Ok_0.start_date@ == ymd_text(monday)
                &&& r->Ok_0.end_date@ == ymd_text(sunday)
            },
{
    let range = choose|range: Option<(Seq<char>, Seq<char>)>|
        range_read_at(TimePeriod::LastWeek, now, range) && stats_for_range(rows, range, r);
    lemma_last_week_at_reading(now, range);
}

/// A cleanup at a clock reading keeps every row dated from one day after the
/// UTC day `days_to_keep` days before the reading on, and removes every row
/// dated two or more days before that UTC day: the cutoff is the local day of
/// that instant. Stated for days of the years 0 to 9999, whose text sorts like
/// the days.
pub proof fn lemma_cleanup_at_reading_keeps_recent_days(
    before: Seq<LogRecord>,
    after: Seq<LogRecord>,
    now: ClockInstant,
    days_to_keep: i64,
    r: Result<Vec<NetworkLog>, LedgerError>,
    x: LogRecord,
    d: CivilDate,
)
    requires
        cleaned_at(before, after, now, days_to_keep, r),
        r is Ok,
        before.contains(x),
        d.is_valid(),
        0 <= d.year <= 9999,
        x.date == ymd_text(d),
        (CivilDate { year: 0, month: 1, day: 1 }).day_number() <= utc_day(now) - days_to_keep - 1,
        utc_day(now) - days_to_keep + 1 <= (CivilDate { year: 9999, month: 12, day: 31 }).day_number(),
    ensures
        d.day_number() >= utc_day(now) - days_to_keep + 1 ==> after.contains(x),
        d.day_number() <= utc_day(now) - days_to_keep - 2 ==> !after.contains(x),
{
    let cutoff = choose|cutoff: Option<Seq<char>>|
        cutoff_read_at(now, days_to_keep, cutoff) && match cutoff {
            None => r == Err::<Vec<NetworkLog>, LedgerError>(LedgerError::ClockUnavailable)
                && after == before,
            Some(c) => r matches Ok(removed) && after == rows_where(before, not_before_cutoff(c))
                && records_of(removed@) == rows_where(before, crate::ledger::before_cutoff(c)),
        };
    let t = cutoff->0;
    let c = choose|c: CivilDate|
        c.well_formed() && utc_day(now) - days_to_keep - 1 <= c.day_number() <= utc_day(now)
            - days_to_keep + 1 && t == ymd_text(c);
    let first = CivilDate { year: 0, month: 1, day: 1 };
    let last = CivilDate { year: 9999, month: 12, day: 31 };
    lemma_day_order_is_lexicographic(first, c);
    lemma_day_order_is_lexicographic(c, last);
    lemma_ymd_text_sorts_like_days(c, d);
    lemma_rows_where_subset(before, not_before_cutoff(t));
    assert(after.contains(x) <==> before.contains(x) && text_le(t, x.date));
}

} // verus!
