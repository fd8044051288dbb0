use chrono::TimeZone;
use usage_meter::calendar::CivilDate;
use usage_meter::period::{
    calculate_date_range, cleanup_cutoff_at, date_range_at, date_range_on, days_in_month,
    instant_days_before, now_rfc3339_at, today_text_at, TimePeriod,
};
use usage_meter::chrono_bridge::ClockInstant;

fn d(year: i32, month: u32, day: u32) -> CivilDate {
    CivilDate { year, month, day }
}

fn range(p: TimePeriod, today: CivilDate, day_ago: CivilDate, week_ago: CivilDate) -> Option<(String, String)> {
    date_range_on(&p, today, day_ago, week_ago)
}

fn pair(a: &str, b: &str) -> Option<(String, String)> {
    Some((a.to_string(), b.to_string()))
}

#[test]
fn days_in_month_follows_the_calendar() {
    assert_eq!(days_in_month(2024, 2), 29);
    assert_eq!(days_in_month(2023, 2), 28);
    assert_eq!(days_in_month(1900, 2), 28);
    assert_eq!(days_in_month(2000, 2), 29);
    assert_eq!(days_in_month(2023, 12), 31);
    assert_eq!(days_in_month(2023, 4), 30);
    assert_eq!(days_in_month(2023, 1), 31);
}

#[test]
fn today_and_yesterday_are_single_days() {
    let t = d(2024, 3, 13);
    assert_eq!(range(TimePeriod::Today, t, d(2024, 3, 12), d(2024, 3, 6)), pair("2024-03-13", "2024-03-13"));
    assert_eq!(range(TimePeriod::Yesterday, t, d(2024, 3, 12), d(2024, 3, 6)), pair("2024-03-12", "2024-03-12"));
}

#[test]
fn this_week_starts_on_monday() {
    // 2024-03-13 is a Wednesday
    let r = range(TimePeriod::ThisWeek, d(2024, 3, 13), d(2024, 3, 12), d(2024, 3, 6));
    assert_eq!(r, pair("2024-03-11", "2024-03-13"));
    // a Sunday belongs to the week that started six days before
    let r = range(TimePeriod::ThisWeek, d(2024, 3, 17), d(2024, 3, 16), d(2024, 3, 10));
    assert_eq!(r, pair("2024-03-11", "2024-03-17"));
    // a Monday starts its own week
    let r = range(TimePeriod::ThisWeek, d(2024, 3, 11), d(2024, 3, 10), d(2024, 3, 4));
    assert_eq!(r, pair("2024-03-11", "2024-03-11"));
}

#[test]
fn last_week_is_monday_to_sunday_around_a_week_ago() {
    let r = range(TimePeriod::LastWeek, d(2024, 3, 13), d(2024, 3, 12), d(2024, 3, 6));
    assert_eq!(r, pair("2024-03-04", "2024-03-10"));
    // across a year boundary
    let r = range(TimePeriod::LastWeek, d(2024, 1, 3), d(2024, 1, 2), d(2023, 12, 27));
    assert_eq!(r, pair("2023-12-25", "2023-12-31"));
}

#[test]
fn months_and_years() {
    let t = d(2024, 3, 13);
    let y = d(2024, 3, 12);
    let w = d(2024, 3, 6);
    assert_eq!(range(TimePeriod::ThisMonth, t, y, w), pair("2024-03-01", "2024-03-13"));
    assert_eq!(range(TimePeriod::LastMonth, t, y, w), pair("2024-02-01", "2024-02-29"));
    assert_eq!(range(TimePeriod::ThisYear, t, y, w), pair("2024-01-01", "2024-03-13"));
    assert_eq!(range(TimePeriod::LastYear, t, y, w), pair("2023-01-01", "2023-12-31"));
}

#[test]
fn last_month_in_january_is_last_december() {
    let t = d(2024, 1, 15);
    assert_eq!(range(TimePeriod::LastMonth, t, t, t), pair("2023-12-01", "2023-12-31"));
    let t = d(2023, 3, 31);
    assert_eq!(range(TimePeriod::LastMonth, t, t, t), pair("2023-02-01", "2023-02-28"));
}

#[test]
fn custom_is_passed_through() {
    let t = d(2024, 3, 13);
    let p = TimePeriod::Custom { start_date: "2020-01-01".to_string(), end_date: "anything".to_string() };
    assert_eq!(range(p.clone(), t, t, t), pair("2020-01-01", "anything"));
    assert_eq!(calculate_date_range(&p), pair("2020-01-01", "anything"));
}

#[test]
fn years_outside_four_digits_carry_a_sign() {
    assert_eq!(range(TimePeriod::Today, d(999, 1, 2), d(999, 1, 1), d(998, 12, 26)), pair("0999-01-02", "0999-01-02"));
    assert_eq!(range(TimePeriod::Today, d(10000, 1, 1), d(9999, 12, 31), d(9999, 12, 25)), pair("+10000-01-01", "+10000-01-01"));
    assert_eq!(range(TimePeriod::Today, d(-5, 6, 7), d(-5, 6, 6), d(-5, 5, 31)), pair("-0005-06-07", "-0005-06-07"));
}

#[test]
fn ranges_at_the_edge_of_the_supported_years() {
    let first = d(-262143, 1, 1);
    // there is no year before the first supported one
    assert_eq!(range(TimePeriod::LastYear, first, first, first), None);
    assert_eq!(range(TimePeriod::LastMonth, first, first, first), None);
}

#[test]
fn shifting_instants_back() {
    let t = ClockInstant { seconds: 1_700_000_000, nanos: 5 };
    assert_eq!(instant_days_before(t, 1), Some(ClockInstant { seconds: 1_700_000_000 - 86_400, nanos: 5 }));
    assert_eq!(instant_days_before(t, -2), Some(ClockInstant { seconds: 1_700_000_000 + 172_800, nanos: 5 }));
    // more days than a time span can hold
    assert_eq!(instant_days_before(t, 106_751_991_168), None);
    assert_eq!(instant_days_before(t, i64::MAX), None);
    assert_eq!(instant_days_before(ClockInstant { seconds: i64::MIN + 10, nanos: 0 }, 1), None);
}

/// The local day of an instant as the date library gives it, as `YYYY-MM-DD`.
fn local_day(seconds: i64) -> String {
    chrono::Local.timestamp_opt(seconds, 0).single().unwrap().format("%Y-%m-%d").to_string()
}

const INSTANT: i64 = 1_700_000_000;

#[test]
fn clock_readings_agree_with_the_date_library() {
    let today = chrono::Local::now().format("%Y-%m-%d").to_string();
    let r = calculate_date_range(&TimePeriod::Today).unwrap();
    // the day may have turned between the two readings
    assert!(r.0 == today || r.0 > today);
    assert_eq!(r.0, r.1);
    let week = calculate_date_range(&TimePeriod::LastWeek).unwrap();
    assert!(week.0 < week.1);
}

#[test]
fn ranges_at_one_reading_use_its_days() {
    let now = ClockInstant { seconds: INSTANT, nanos: 0 };
    let today = local_day(INSTANT);
    let yesterday = local_day(INSTANT - 86_400);
    assert_eq!(date_range_at(&TimePeriod::Today, now), Some((today.clone(), today.clone())));
    assert_eq!(date_range_at(&TimePeriod::Yesterday, now), Some((yesterday.clone(), yesterday)));
    let month = date_range_at(&TimePeriod::ThisMonth, now).unwrap();
    assert_eq!(month.0, format!("{}-01", &today[..7]));
    assert_eq!(month.1, today);
    let year = date_range_at(&TimePeriod::LastYear, now).unwrap();
    assert_eq!(year, ("2022-01-01".to_string(), "2022-12-31".to_string()));
    let custom = TimePeriod::Custom { start_date: "b".to_string(), end_date: "a".to_string() };
    assert_eq!(date_range_at(&custom, now), pair("b", "a"));
    // a reading the date library cannot place in local time gives no range
    let far = ClockInstant { seconds: i64::MAX, nanos: 0 };
    assert_eq!(date_range_at(&TimePeriod::Today, far), None);
    assert_eq!(date_range_at(&custom, far), pair("b", "a"));
    let bad_nanos = ClockInstant { seconds: INSTANT, nanos: 1_500_000_000 };
    assert_eq!(date_range_at(&TimePeriod::Today, bad_nanos), None);
}

#[test]
fn last_week_at_one_reading_is_the_week_before() {
    let now = ClockInstant { seconds: INSTANT, nanos: 0 };
    let week_ago = chrono::NaiveDate::parse_from_str(&local_day(INSTANT - 7 * 86_400), "%Y-%m-%d").unwrap();
    let monday = week_ago.week(chrono::Weekday::Mon).first_day();
    let sunday = week_ago.week(chrono::Weekday::Mon).last_day();
    assert_eq!(
        date_range_at(&TimePeriod::LastWeek, now),
        Some((monday.format("%Y-%m-%d").to_string(), sunday.format("%Y-%m-%d").to_string()))
    );
}

#[test]
fn day_texts_at_one_reading() {
    let now = ClockInstant { seconds: INSTANT, nanos: 0 };
    let today = local_day(INSTANT);
    assert_eq!(today_text_at(now), Some(today.clone()));
    let stamp = now_rfc3339_at(now).unwrap();
    assert!(stamp.starts_with(&today));
    assert_eq!(stamp.as_bytes()[10], b'T');
    assert_eq!(today_text_at(ClockInstant { seconds: i64::MIN, nanos: 0 }), None);
    assert_eq!(now_rfc3339_at(ClockInstant { seconds: INSTANT, nanos: 2_000_000_000 }), None);
}

#[test]
fn cleanup_cutoff_at_one_reading() {
    let now = ClockInstant { seconds: INSTANT, nanos: 0 };
    assert_eq!(cleanup_cutoff_at(now, 0), Some(local_day(INSTANT)));
    assert_eq!(cleanup_cutoff_at(now, 30), Some(local_day(INSTANT - 30 * 86_400)));
    assert_eq!(cleanup_cutoff_at(now, -2), Some(local_day(INSTANT + 2 * 86_400)));
    assert_eq!(cleanup_cutoff_at(now, i64::MAX), None);
}
