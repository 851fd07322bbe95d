use chrono::Datelike;
use chrono::DateTime;
use chrono::TimeZone;
use chrono::Utc;
use timings::DailyTotals;
use timings::Stamp;

fn stamp(dt: DateTime<Utc>) -> Stamp {
    Stamp {
        ms: dt.timestamp_millis(),
        day: dt.date_naive().num_days_from_ce() as i64,
    }
}

// 2020-05-05 is a Tuesday.
fn tuesday() -> DateTime<Utc> {
    Utc.with_ymd_and_hms(2020, 5, 5, 12, 0, 0).unwrap()
}

#[test]
fn to_totals_empty_is_all_zero() {
    let totals = DailyTotals::new().to_totals(stamp(tuesday()));
    assert_eq!(totals.today, 0);
    assert_eq!(totals.this_week, 0);
    assert_eq!(totals.last_week, 0);
    assert_eq!(totals.eight_weeks, 0);
}

#[test]
fn to_totals_windows_follow_the_local_calendar() {
    let now = stamp(tuesday());
    let day = now.day;
    let mut dt = DailyTotals::new();
    // Today (Tuesday) and Monday belong to this week.
    dt.insert(day, 3_600_000);
    dt.insert(day - 1, 1_800_000);
    // Last Wednesday lies in the full prior week.
    dt.insert(day - 6, 600_000);
    // The eight-week window starts 56 days back, inclusive.
    dt.insert(day - 56, 111);
    // One day before the window: never counted.
    dt.insert(day - 57, 999);

    let totals = dt.to_totals(now);
    assert_eq!(totals.today, 3_600_000);
    assert_eq!(totals.this_week, 5_400_000);
    assert_eq!(totals.last_week, 600_000);
    assert_eq!(totals.eight_weeks, 6_000_111);
}

#[test]
fn insert_timing_accumulates_into_the_start_day() {
    let start = stamp(Utc.with_ymd_and_hms(2020, 5, 5, 23, 30, 0).unwrap());
    let end = stamp(Utc.with_ymd_and_hms(2020, 5, 6, 0, 30, 0).unwrap());
    let mut dt = DailyTotals::new();
    dt.insert_timing(start, end);
    // The whole hour is credited to the day the span started on.
    assert_eq!(dt.get(start.day), Some(3_600_000));
    assert_eq!(dt.get(end.day), None);

    dt.insert_timing(start, end);
    assert_eq!(dt.get(start.day), Some(7_200_000));
}

#[test]
fn from_timings_matches_adding_one_by_one() {
    let a0 = stamp(Utc.with_ymd_and_hms(2020, 5, 5, 9, 0, 0).unwrap());
    let a1 = stamp(Utc.with_ymd_and_hms(2020, 5, 5, 10, 0, 0).unwrap());
    let b0 = stamp(Utc.with_ymd_and_hms(2020, 5, 5, 11, 0, 0).unwrap());
    let b1 = stamp(Utc.with_ymd_and_hms(2020, 5, 5, 11, 30, 0).unwrap());

    let rebuilt = DailyTotals::from_timings(&vec![(a0, a1), (b0, b1)]);

    let mut incremental = DailyTotals::new();
    incremental.insert_timing(a0, a1);
    incremental.insert_timing(b0, b1);

    // Both roads give the same day buckets, and the bucket is the
    // sum of the raw durations.
    assert_eq!(rebuilt.get(a0.day), Some(5_400_000));
    assert_eq!(incremental.get(a0.day), Some(5_400_000));
    let now = stamp(tuesday());
    assert_eq!(rebuilt.to_totals(now), incremental.to_totals(now));
}

#[test]
fn from_rows_later_rows_win_and_negatives_count_as_zero() {
    let day = stamp(tuesday()).day;
    let row = |d: i64, ms: i64| timings::DailyTotalSummary {
        day: d,
        total_ms: ms,
        client: "A".to_string(),
        project: "P".to_string(),
    };

    let dt = DailyTotals::from_rows(&vec![row(day, -5), row(day + 1, 250)]);
    assert_eq!(dt.get(day), Some(0));
    assert_eq!(dt.get(day + 1), Some(250));

    let dt = DailyTotals::from_rows(&vec![row(day, 100), row(day, 700)]);
    assert_eq!(dt.get(day), Some(700));
}

#[test]
fn plus_sums_field_by_field() {
    let a = timings::Totals { today: 1, this_week: 2, last_week: 3, eight_weeks: 4 };
    let b = timings::Totals { today: 10, this_week: 20, last_week: 30, eight_weeks: i64::MAX };
    let sum = a.plus(&b);
    assert_eq!(sum.today, 11);
    assert_eq!(sum.this_week, 22);
    assert_eq!(sum.last_week, 33);
    assert_eq!(sum.eight_weeks, i64::MAX);
}

#[test]
fn with_current_timing_never_touches_last_week() {
    let start = stamp(tuesday());
    let now = stamp(tuesday() + chrono::Duration::seconds(150));
    let base = timings::Totals { today: 10, this_week: 20, last_week: 30, eight_weeks: 40 };
    let extended = base.with_current_timing(start, now);
    assert_eq!(extended.today, 150_010);
    assert_eq!(extended.this_week, 150_020);
    assert_eq!(extended.last_week, 30);
    assert_eq!(extended.eight_weeks, 150_040);
}
