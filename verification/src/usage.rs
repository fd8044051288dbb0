//! The logger's operations on the usage table for a reporting period or for
//! today, reading the clock where the period needs it.
use crate::calendar::CivilDate;
use crate::chrono_bridge::{
    local_now, max_delta_seconds, nanos_accepted, near_utc_day, strictly_inside,
    timestamp_accepted, ClockInstant, ClockReading,
};
use crate::date_text::ymd_text;
use crate::ledger::{
    before_cutoff, dates_distinct, downloaded_sum, lists_newest_first, not_before_cutoff,
    recorded_on, records_of, rows_between, rows_where, totals_fit, uploaded_sum, LedgerError,
    LogRecord, NetworkLog, UsageLedger,
};
use crate::ledger_laws::lemma_daily_logs_match_stats;
use crate::period::{
    cleanup_cutoff_at, cutoff_read_at, date_range_at, now_rfc3339_at, range_read_at, range_view,
    stamp_read_at, text_view, today_text_at, TimePeriod,
};
use vstd::prelude::*;

verus! {

/// Aggregated network statistics for a time period, in whole bytes.
#[derive(Debug, Clone)]
pub struct NetworkStats {
    pub start_date: String,
    pub end_date: String,
    pub total_uploaded_bytes: i64,
    pub total_downloaded_bytes: i64,
    pub days_count: i64,
}

/// `stats` are the totals of the rows of `rows` in its own date range.
pub open spec fn stats_of(rows: Seq<LogRecord>, stats: NetworkStats) -> bool {
    let within = rows_between(rows, stats.start_date@, stats.end_date@);
    &&& totals_fit(within)
    &&& stats.total_uploaded_bytes == uploaded_sum(within)
    &&& stats.total_downloaded_bytes == downloaded_sum(within)
    &&& stats.days_count == within.len()
}


/// What the statistics of a range give: `ClockUnavailable` where no range could
/// be read, and otherwise the range's totals, or `Overflow` where they leave the
/// `i64` range.
pub open spec fn stats_for_range(
    rows: Seq<LogRecord>,
    range: Option<(Seq<char>, Seq<char>)>,
    r: Result<NetworkStats, LedgerError>,
) -> bool {
    match range {
        None => r == Err::<NetworkStats, LedgerError>(LedgerError::ClockUnavailable),
        Some((start, end)) => match r {
            Ok(s) => s.start_date@ == start && s.end_date@ == end && stats_of(rows, s),
            Err(e) => e == LedgerError::Overflow && !totals_fit(rows_between(rows, start, end)),
        },
    }
}

/// What the statistics of `period` at the clock reading `now` give: those of
/// the range that reading the period's range at `now` gives.
pub open spec fn stats_read_at(
    rows: Seq<LogRecord>,
    period: TimePeriod,
    now: ClockInstant,
    r: Result<NetworkStats, LedgerError>,
) -> bool {
    exists|range: Option<(Seq<char>, Seq<char>)>|
        #![trigger range_read_at(period, now, range)]
        range_read_at(period, now, range) && stats_for_range(rows, range, r)
}

/// What the daily logs of a range give: `ClockUnavailable` where no range could
/// be read, and otherwise the range's rows, latest day first.
pub open spec fn logs_for_range(
    rows: Seq<LogRecord>,
    range: Option<(Seq<char>, Seq<char>)>,
    r: Result<Vec<NetworkLog>, LedgerError>,
) -> bool {
    match range {
        None => r == Err::<Vec<NetworkLog>, LedgerError>(LedgerError::ClockUnavailable),
        Some((start, end)) => r matches Ok(logs) && lists_newest_first(
            records_of(logs@),
            rows_between(rows, start, end),
        ),
    }
}

/// What the daily logs of `period` at the clock reading `now` give: those of
/// the range that reading the period's range at `now` gives.
pub open spec fn logs_read_at(
    rows: Seq<LogRecord>,
    period: TimePeriod,
    now: ClockInstant,
    r: Result<Vec<NetworkLog>, LedgerError>,
) -> bool {
    exists|range: Option<(Seq<char>, Seq<char>)>|
        #![trigger range_read_at(period, now, range)]
        range_read_at(period, now, range) && logs_for_range(rows, range, r)
}

/// What logging usage at the clock reading `now` does: where the clock's day
/// can be read, the usage is recorded on the local day of `now`, stamped with
/// the RFC 3339 time of `now`; otherwise the table is left as it was and the
/// answer is `ClockUnavailable`.
pub open spec fn logged_at(
    before: Seq<LogRecord>,
    after: Seq<LogRecord>,
    now: ClockInstant,
    uploaded_bytes: i64,
    downloaded_bytes: i64,
    r: Result<NetworkLog, LedgerError>,
) -> bool {
    if strictly_inside(now) && nanos_accepted(now) {
        exists|day: CivilDate, stamp: Seq<char>|
            #![trigger recorded_on(before, after, ymd_text(day), stamp, uploaded_bytes, downloaded_bytes, r)]
            day.well_formed() && near_utc_day(day, now) && stamp_read_at(now, Some(stamp))
                && recorded_on(before, after, ymd_text(day), stamp, uploaded_bytes, downloaded_bytes, r)
    } else {
        r == Err::<NetworkLog, LedgerError>(LedgerError::ClockUnavailable) && after == before
    }
}

/// What cleaning up at the clock reading `now` does: with the cutoff day read
/// off `now` for `days_to_keep`, the rows dated before it are removed and
/// returned; where no cutoff could be read, the table is left as it was and the
/// answer is `ClockUnavailable`.
pub open spec fn cleaned_at(
    before: Seq<LogRecord>,
    after: Seq<LogRecord>,
    now: ClockInstant,
    days_to_keep: i64,
    r: Result<Vec<NetworkLog>, LedgerError>,
) -> bool {
    exists|cutoff: Option<Seq<char>>|
        #![trigger cutoff_read_at(now, days_to_keep, cutoff)]
        cutoff_read_at(now, days_to_keep, cutoff) && match cutoff {
            None => r == Err::<Vec<NetworkLog>, LedgerError>(LedgerError::ClockUnavailable) && after
                == before,
            Some(c) => r matches Ok(removed) && after == rows_where(before, not_before_cutoff(c))
                && records_of(removed@) == rows_where(before, before_cutoff(c)),
        }
}

impl UsageLedger {
    /// Network statistics for the days from `start_date` to `end_date`.
    pub fn stats_between(&self, start_date: String, end_date: String) -> (r: Result<
        NetworkStats,
        LedgerError,
    >)
        ensures
            match r {
                Ok(s) => s.start_date@ == start_date@ && s.end_date@ == end_date@ && stats_of(self@, s),
                Err(e) => e == LedgerError::Overflow && !totals_fit(
                    rows_between(self@, start_date@, end_date@),
                ),
            },
    {
        match self.totals_between(start_date.as_str(), end_date.as_str()) {
            Ok(t) => Ok(
                NetworkStats {
                    start_date,
                    end_date,
                    total_uploaded_bytes: t.uploaded_bytes,
                    total_downloaded_bytes: t.downloaded_bytes,
                    days_count: t.days,
                },
            ),
            Err(e) => Err(e),
        }
    }

    /// Network statistics for `period` at the clock reading `now`.
    pub fn get_stats_at(&self, period: &TimePeriod, now: ClockInstant) -> (r: Result<
        NetworkStats,
        LedgerError,
    >)
        ensures
            stats_read_at(self@, *period, now, r),
    {
        let range = date_range_at(period, now);
        let ghost read = range_view(range);
        let r = match range {
            Some((start, end)) => self.stats_between(start, end),
            None => Err(LedgerError::ClockUnavailable),
        };
        proof {
            assert(stats_for_range(self@, read, r));
        }
        r
    }

    /// Get network statistics for a specific time period, reading the clock
    /// once: what `get_stats_at` gives for the instant of the reading taken.
    pub fn get_stats(&self, period: &TimePeriod) -> (r: Result<NetworkStats, LedgerError>)
        ensures
            exists|reading: ClockReading|
                #![trigger stats_read_at(self@, *period, reading@, r)]
                timestamp_accepted(reading@) && stats_read_at(self@, *period, reading@, r),
            period matches TimePeriod::Custom { start_date, end_date } ==> (r is Ok <==> totals_fit(
                rows_between(self@, start_date@, end_date@),
            )),
    {
        let reading = local_now();
        self.get_stats_at(period, reading.instant())
    }

    /// Daily logs for `period` at the clock reading `now`, latest day first.
    pub fn get_daily_logs_at(&self, period: &TimePeriod, now: ClockInstant) -> (r: Result<
        Vec<NetworkLog>,
        LedgerError,
    >)
        requires
            self.well_formed(),
        ensures
            logs_read_at(self@, *period, now, r),
    {
        let range = date_range_at(period, now);
        let ghost read = range_view(range);
        let r = match range {
            Some((start, end)) => Ok(self.logs_between(start.as_str(), end.as_str())),
            None => Err(LedgerError::ClockUnavailable),
        };
        proof {
            assert(logs_for_range(self@, read, r));
        }
        r
    }

    /// Get daily logs for a specific time period, latest day first, reading the
    /// clock once: what `get_daily_logs_at` gives for the reading taken.
    pub fn get_daily_logs(&self, period: &TimePeriod) -> (r: Result<Vec<NetworkLog>, LedgerError>)
        requires
            self.well_formed(),
        ensures
            exists|reading: ClockReading|
                #![trigger logs_read_at(self@, *period, reading@, r)]
                timestamp_accepted(reading@) && logs_read_at(self@, *period, reading@, r),
    {
        let reading = local_now();
        self.get_daily_logs_at(period, reading.instant())
    }

    /// Log network usage at the clock reading `now` (incremental update): the
    /// row of the local day of `now` grows by the given bytes and is stamped
    /// with the RFC 3339 time of `now`. Returns that row as it now stands.
    pub fn log_usage_at(&mut self, now: ClockInstant, uploaded_bytes: i64, downloaded_bytes: i64) -> (r: Result<
        NetworkLog,
        LedgerError,
    >)
        requires
            old(self).well_formed(),
        ensures
            final(self).well_formed(),
            logged_at(old(self)@, final(self)@, now, uploaded_bytes, downloaded_bytes, r),
    {
        let ghost before = self@;
        let today = match today_text_at(now) {
            Some(t) => t,
            None => return Err(LedgerError::ClockUnavailable),
        };
        let stamp = match now_rfc3339_at(now) {
            Some(t) => t,
            None => return Err(LedgerError::ClockUnavailable),
        };
        let ghost day = choose|d: CivilDate|
            d.well_formed() && near_utc_day(d, now) && today@ == ymd_text(d);
        let r = self.record_usage(&today, uploaded_bytes, downloaded_bytes, &stamp);
        proof {
            assert(stamp_read_at(now, text_view(Some(stamp))));
            assert(recorded_on(before, self@, ymd_text(day), stamp@, uploaded_bytes, downloaded_bytes, r));
        }
        r
    }

    /// Log network usage for today (incremental update), stamped with the
    /// current time, reading the clock once: what `log_usage_at` does for the
    /// reading taken. Returns today's row as it now stands.
    pub fn log_usage(&mut self, uploaded_bytes: i64, downloaded_bytes: i64) -> (r: Result<
        NetworkLog,
        LedgerError,
    >)
        requires
            old(self).well_formed(),
        ensures
            final(self).well_formed(),
            exists|reading: ClockReading|
                #![trigger logged_at(old(self)@, final(self)@, reading@, uploaded_bytes, downloaded_bytes, r)]
                timestamp_accepted(reading@) && logged_at(
                    old(self)@,
                    final(self)@,
                    reading@,
                    uploaded_bytes,
                    downloaded_bytes,
                    r,
                ),
    {
        let reading = local_now();
        self.log_usage_at(reading.instant(), uploaded_bytes, downloaded_bytes)
    }

    /// Delete logs older than `days_to_keep` days at the clock reading `now`:
    /// every row dated before the local day of the instant `days_to_keep` days
    /// before `now`. Returns the deleted rows.
    pub fn cleanup_old_logs_at(&mut self, now: ClockInstant, days_to_keep: i64) -> (r: Result<
        Vec<NetworkLog>,
        LedgerError,
    >)
        requires
            old(self).well_formed(),
        ensures
            final(self).well_formed(),
            cleaned_at(old(self)@, final(self)@, now, days_to_keep, r),
    {
        let ghost before = self@;
        let cutoff = cleanup_cutoff_at(now, days_to_keep);
        let ghost read = text_view(cutoff);
        let r = match cutoff {
            Some(c) => Ok(self.remove_before(c.as_str())),
            None => Err(LedgerError::ClockUnavailable),
        };
        proof {
            assert(cutoff_read_at(now, days_to_keep, read));
        }
        r
    }

    /// Delete logs older than `days_to_keep` days, reading the clock once: what
    /// `cleanup_old_logs_at` does for the reading taken. Returns the deleted rows.
    pub fn cleanup_old_logs(&mut self, days_to_keep: i64) -> (r: Result<
        Vec<NetworkLog>,
        LedgerError,
    >)
        requires
            old(self).well_formed(),
        ensures
            final(self).well_formed(),
            exists|reading: ClockReading|
                #![trigger cleaned_at(old(self)@, final(self)@, reading@, days_to_keep, r)]
                timestamp_accepted(reading@) && cleaned_at(
                    old(self)@,
                    final(self)@,
                    reading@,
                    days_to_keep,
                    r,
                ),
            !(-max_delta_seconds() <= days_to_keep * 86400 <= max_delta_seconds()) ==> r
                == Err::<Vec<NetworkLog>, LedgerError>(LedgerError::ClockUnavailable),
    {
        let reading = local_now();
        self.cleanup_old_logs_at(reading.instant(), days_to_keep)
    }
}

/// The statistics and the daily logs of one range of a table with one row per
/// day agree: as many days as rows listed, and the listed rows add up to the
/// totals.
pub proof fn lemma_stats_and_logs_of_one_range_agree(
    rows: Seq<LogRecord>,
    range: Option<(Seq<char>, Seq<char>)>,
    stats: NetworkStats,
    logs: Vec<NetworkLog>,
)
    requires
        dates_distinct(rows),
        stats_for_range(rows, range, Ok(stats)),
        logs_for_range(rows, range, Ok(logs)),
    ensures
        stats.days_count == logs@.len(),
        stats.total_uploaded_bytes == uploaded_sum(records_of(logs@)),
        stats.total_downloaded_bytes == downloaded_sum(records_of(logs@)),
{
    let (start, end) = range->0;
    lemma_daily_logs_match_stats(records_of(logs@), rows, start, end);
}

} // verus!
