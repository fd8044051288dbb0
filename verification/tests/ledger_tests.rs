use chrono::TimeZone;
use usage_meter::chrono_bridge::ClockInstant;
use usage_meter::date_text::text_at_most;
use usage_meter::ledger::{LedgerError, NetworkLog, UsageLedger, UsageTotals};
use usage_meter::period::TimePeriod;

fn row(id: i64, date: &str, up: i64, down: i64) -> NetworkLog {
    NetworkLog {
        id: Some(id),
        date: date.to_string(),
        uploaded_bytes: up,
        downloaded_bytes: down,
        created_at: format!("{date}T00:00:00+00:00"),
        updated_at: format!("{date}T00:00:00+00:00"),
    }
}

fn sample() -> UsageLedger {
    UsageLedger::from_rows(vec![
        row(1, "2024-03-10", 100, 1000),
        row(2, "2024-03-12", 20, 200),
        row(3, "2024-03-11", 3, 30),
        row(4, "2024-02-28", 4000, 40000),
    ])
    .unwrap()
}

#[test]
fn duplicate_days_are_refused() {
    let r = UsageLedger::from_rows(vec![row(1, "2024-03-10", 1, 1), row(2, "2024-03-10", 2, 2)]);
    assert_eq!(r.err(), Some(LedgerError::DuplicateDate));
    assert!(UsageLedger::from_rows(Vec::new()).is_ok());
}

#[test]
fn recording_adds_to_an_existing_day() {
    let mut l = sample();
    let r = l.record_usage(&"2024-03-12".to_string(), 5, 50, &"later".to_string()).unwrap();
    assert_eq!(r.id, Some(2));
    assert_eq!(r.uploaded_bytes, 25);
    assert_eq!(r.downloaded_bytes, 250);
    assert_eq!(r.created_at, "2024-03-12T00:00:00+00:00");
    assert_eq!(r.updated_at, "later");
    let rows = l.rows();
    assert_eq!(rows.len(), 4);
    assert_eq!(rows[1].uploaded_bytes, 25);
}

#[test]
fn recording_a_new_day_adds_a_row() {
    let mut l = sample();
    let r = l.record_usage(&"2024-03-13".to_string(), 7, 70, &"now".to_string()).unwrap();
    assert_eq!(r.id, None);
    assert_eq!(r.created_at, "now");
    assert_eq!(r.updated_at, "now");
    let rows = l.rows();
    assert_eq!(rows.len(), 5);
    assert_eq!(rows[4].date, "2024-03-13");
    assert_eq!(rows[4].uploaded_bytes, 7);
}

#[test]
fn recording_past_the_integer_range_is_refused() {
    let mut l = UsageLedger::from_rows(vec![row(1, "2024-03-10", i64::MAX - 1, 0)]).unwrap();
    let r = l.record_usage(&"2024-03-10".to_string(), 2, 0, &"now".to_string());
    assert_eq!(r.err(), Some(LedgerError::Overflow));
    assert_eq!(l.rows()[0].uploaded_bytes, i64::MAX - 1);
}

#[test]
fn totals_cover_the_range_inclusively() {
    let l = sample();
    let t = l.totals_between("2024-03-10", "2024-03-12").unwrap();
    assert_eq!(t, UsageTotals { uploaded_bytes: 123, downloaded_bytes: 1230, days: 3 });
    let t = l.totals_between("2024-03-11", "2024-03-11").unwrap();
    assert_eq!(t, UsageTotals { uploaded_bytes: 3, downloaded_bytes: 30, days: 1 });
    let t = l.totals_between("2025-01-01", "2025-12-31").unwrap();
    assert_eq!(t, UsageTotals { uploaded_bytes: 0, downloaded_bytes: 0, days: 0 });
    // an empty range: start after end
    let t = l.totals_between("2024-03-12", "2024-03-10").unwrap();
    assert_eq!(t.days, 0);
}

#[test]
fn totals_past_the_integer_range_are_refused() {
    let l = UsageLedger::from_rows(vec![row(1, "2024-03-10", i64::MAX, 0), row(2, "2024-03-11", 1, 0)]).unwrap();
    assert_eq!(l.totals_between("2024-03-10", "2024-03-11").err(), Some(LedgerError::Overflow));
    assert!(l.totals_between("2024-03-10", "2024-03-10").is_ok());
}

#[test]
fn daily_logs_come_latest_first() {
    let l = sample();
    let logs = l.logs_between("2024-01-01", "2024-12-31");
    let dates: Vec<&str> = logs.iter().map(|r| r.date.as_str()).collect();
    assert_eq!(dates, vec!["2024-03-12", "2024-03-11", "2024-03-10", "2024-02-28"]);
    let logs = l.logs_between("2024-03-11", "2024-03-20");
    let ids: Vec<Option<i64>> = logs.iter().map(|r| r.id).collect();
    assert_eq!(ids, vec![Some(2), Some(3)]);
}

#[test]
fn daily_logs_add_up_to_the_totals() {
    let l = sample();
    let logs = l.logs_between("2024-03-01", "2024-03-31");
    let t = l.totals_between("2024-03-01", "2024-03-31").unwrap();
    let up: i64 = logs.iter().map(|r| r.uploaded_bytes).sum();
    let down: i64 = logs.iter().map(|r| r.downloaded_bytes).sum();
    assert_eq!((up, down, logs.len() as i64), (t.uploaded_bytes, t.downloaded_bytes, t.days));
}

#[test]
fn cleanup_removes_days_before_the_cutoff() {
    let mut l = sample();
    let removed = l.remove_before("2024-03-11");
    let gone: Vec<&str> = removed.iter().map(|r| r.date.as_str()).collect();
    assert_eq!(gone, vec!["2024-03-10", "2024-02-28"]);
    let kept: Vec<String> = l.rows().into_iter().map(|r| r.date).collect();
    assert_eq!(kept, vec!["2024-03-12".to_string(), "2024-03-11".to_string()]);
    // a second cleanup with the same cutoff removes nothing
    assert!(l.remove_before("2024-03-11").is_empty());
    // ranges from the cutoff on keep their totals
    assert_eq!(l.totals_between("2024-03-11", "2024-03-31").unwrap().uploaded_bytes, 23);
}

#[test]
fn stats_for_a_custom_period() {
    let l = sample();
    let p = TimePeriod::Custom { start_date: "2024-03-10".to_string(), end_date: "2024-03-11".to_string() };
    let s = l.get_stats(&p).unwrap();
    assert_eq!(s.start_date, "2024-03-10");
    assert_eq!(s.end_date, "2024-03-11");
    assert_eq!(s.total_uploaded_bytes, 103);
    assert_eq!(s.total_downloaded_bytes, 1030);
    assert_eq!(s.days_count, 2);
    let logs = l.get_daily_logs(&p).unwrap();
    assert_eq!(logs.len(), 2);
    assert_eq!(logs[0].date, "2024-03-11");
}

#[test]
fn logging_usage_for_today_accumulates() {
    let mut l = UsageLedger::new();
    let first = l.log_usage(10, 20).unwrap();
    let second = l.log_usage(1, 2).unwrap();
    // unless the day turned in between, both land on the same row
    if first.date == second.date {
        assert_eq!(second.uploaded_bytes, 11);
        assert_eq!(second.downloaded_bytes, 22);
        assert_eq!(second.created_at, first.created_at);
        assert_eq!(l.rows().len(), 1);
    }
    let today = l.get_stats(&TimePeriod::Today).unwrap();
    assert_eq!(today.start_date, second.date);
    assert_eq!(today.total_uploaded_bytes, second.uploaded_bytes);
    // keeping zero days removes everything dated before today
    let removed = l.cleanup_old_logs(0).unwrap();
    assert!(removed.len() <= 1);
    assert!(l.rows().iter().all(|r| r.date == second.date) || l.rows().is_empty());
}

#[test]
fn text_order_is_byte_order() {
    assert!(text_at_most("2024-03-10", "2024-03-10"));
    assert!(text_at_most("2024-03-09", "2024-03-10"));
    assert!(!text_at_most("2024-03-10", "2024-03-09"));
    assert!(text_at_most("2024", "2024-01-01"));
    assert!(!text_at_most("b", "a"));
    assert!(text_at_most("", ""));
    assert!(text_at_most("Z", "a"));
    assert!(text_at_most("a", "é"));
}

#[test]
fn recording_moves_only_the_ranges_that_hold_the_day() {
    let mut l = sample();
    let march_before = l.totals_between("2024-03-01", "2024-03-31").unwrap();
    let feb_before = l.totals_between("2024-02-01", "2024-02-29").unwrap();
    l.record_usage(&"2024-03-11".to_string(), 9, 90, &"t".to_string()).unwrap();
    let march_after = l.totals_between("2024-03-01", "2024-03-31").unwrap();
    let feb_after = l.totals_between("2024-02-01", "2024-02-29").unwrap();
    assert_eq!(march_after.uploaded_bytes, march_before.uploaded_bytes + 9);
    assert_eq!(march_after.downloaded_bytes, march_before.downloaded_bytes + 90);
    assert_eq!(march_after.days, march_before.days);
    assert_eq!(feb_after, feb_before);
    l.record_usage(&"2024-03-20".to_string(), 1, 1, &"t".to_string()).unwrap();
    assert_eq!(l.totals_between("2024-03-01", "2024-03-31").unwrap().days, march_before.days + 1);
}

#[test]
fn cleanup_splits_the_usage() {
    let mut l = sample();
    let all = l.totals_between("", "9999").unwrap();
    let removed = l.remove_before("2024-03-11");
    let kept = l.totals_between("", "9999").unwrap();
    let gone: i64 = removed.iter().map(|r| r.uploaded_bytes).sum();
    assert_eq!(kept.uploaded_bytes + gone, all.uploaded_bytes);
    assert_eq!(kept.days + removed.len() as i64, all.days);
}

#[test]
fn custom_periods_never_need_the_clock() {
    let empty = UsageLedger::new();
    let p = TimePeriod::Custom { start_date: "2024-01-01".to_string(), end_date: "2024-01-31".to_string() };
    let s = empty.get_stats(&p).unwrap();
    assert_eq!((s.total_uploaded_bytes, s.total_downloaded_bytes, s.days_count), (0, 0, 0));
    assert_eq!(s.start_date, "2024-01-01");
    let inverted = TimePeriod::Custom { start_date: "2024-05-10".to_string(), end_date: "2024-05-01".to_string() };
    assert!(sample().get_daily_logs(&inverted).unwrap().is_empty());
    assert_eq!(sample().get_stats(&inverted).unwrap().days_count, 0);
}

#[test]
fn two_recordings_equal_one_of_the_sum() {
    let mut twice = sample();
    twice.record_usage(&"2024-03-11".to_string(), 4, 40, &"a".to_string()).unwrap();
    twice.record_usage(&"2024-03-11".to_string(), 6, 60, &"b".to_string()).unwrap();
    let mut once = sample();
    once.record_usage(&"2024-03-11".to_string(), 10, 100, &"b".to_string()).unwrap();
    let a: Vec<(String, i64, i64, String)> =
        twice.rows().into_iter().map(|r| (r.date, r.uploaded_bytes, r.downloaded_bytes, r.updated_at)).collect();
    let b: Vec<(String, i64, i64, String)> =
        once.rows().into_iter().map(|r| (r.date, r.uploaded_bytes, r.downloaded_bytes, r.updated_at)).collect();
    assert_eq!(a, b);
}

#[test]
fn cleanup_with_an_unrepresentable_span_is_refused() {
    let mut l = sample();
    assert_eq!(l.cleanup_old_logs(i64::MAX).err(), Some(LedgerError::ClockUnavailable));
    assert_eq!(l.rows().len(), 4);
}

fn local_day_of(seconds: i64) -> String {
    chrono::Local.timestamp_opt(seconds, 0).single().unwrap().format("%Y-%m-%d").to_string()
}

#[test]
fn logging_at_one_reading_uses_its_day_and_time() {
    let now = ClockInstant { seconds: 1_700_000_000, nanos: 0 };
    let day = local_day_of(1_700_000_000);
    let mut l = UsageLedger::new();
    let first = l.log_usage_at(now, 10, 20).unwrap();
    assert_eq!(first.date, day);
    assert!(first.updated_at.starts_with(&format!("{day}T")));
    let second = l.log_usage_at(now, 1, 2).unwrap();
    assert_eq!(second.uploaded_bytes, 11);
    assert_eq!(second.downloaded_bytes, 22);
    assert_eq!(l.rows().len(), 1);
    let stats = l.get_stats_at(&TimePeriod::Today, now).unwrap();
    assert_eq!(stats.start_date, day);
    assert_eq!(stats.total_uploaded_bytes, 11);
    assert_eq!(stats.total_downloaded_bytes, 22);
    assert_eq!(stats.days_count, 1);
    let logs = l.get_daily_logs_at(&TimePeriod::Today, now).unwrap();
    assert_eq!(logs.len(), 1);
    assert_eq!(logs[0].uploaded_bytes, 11);
    // the day before holds nothing
    let yesterday = l.get_stats_at(&TimePeriod::Yesterday, now).unwrap();
    assert_eq!(yesterday.start_date, local_day_of(1_700_000_000 - 86_400));
    assert_eq!(yesterday.days_count, 0);
    assert!(l.get_daily_logs_at(&TimePeriod::Yesterday, now).unwrap().is_empty());
}

#[test]
fn readings_the_clock_cannot_place_are_refused() {
    let far = ClockInstant { seconds: i64::MAX, nanos: 0 };
    let mut l = sample();
    assert_eq!(l.log_usage_at(far, 1, 1).err(), Some(LedgerError::ClockUnavailable));
    assert_eq!(l.rows().len(), 4);
    assert_eq!(l.get_stats_at(&TimePeriod::Today, far).err(), Some(LedgerError::ClockUnavailable));
    assert_eq!(l.get_daily_logs_at(&TimePeriod::ThisWeek, far).err(), Some(LedgerError::ClockUnavailable));
    assert_eq!(l.cleanup_old_logs_at(far, 1).err(), Some(LedgerError::ClockUnavailable));
    assert_eq!(l.rows().len(), 4);
}

#[test]
fn cleanup_at_one_reading_keeps_the_days_after_the_cutoff() {
    // 2024-03-20T00:00:00Z: ten days back is 2024-03-10 in UTC, give or take a day locally
    let now = ClockInstant { seconds: 1_710_892_800, nanos: 0 };
    let cutoff = local_day_of(1_710_892_800 - 10 * 86_400);
    let mut l = sample();
    let removed = l.cleanup_old_logs_at(now, 10).unwrap();
    for r in &removed {
        assert!(r.date < cutoff);
    }
    for r in &l.rows() {
        assert!(r.date >= cutoff);
    }
    assert_eq!(removed.len() + l.rows().len(), 4);
    assert_eq!(l.cleanup_old_logs_at(now, i64::MAX).err(), Some(LedgerError::ClockUnavailable));
}
