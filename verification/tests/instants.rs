use chrono::Datelike;
use timings::stamp_from_ms;
use timings::time::MAX_ABS_MS;
use timings::time::clamped_add;
use timings::time::days_from_monday;

#[test]
fn days_from_monday_agrees_with_the_calendar() {
    // 2020-05-05 was a Tuesday, 2020-05-04 a Monday.
    let tuesday = chrono::NaiveDate::from_ymd_opt(2020, 5, 5).unwrap();
    let day = tuesday.num_days_from_ce() as i64;
    assert_eq!(days_from_monday(day), 1);
    assert_eq!(days_from_monday(day - 1), 0);
    assert_eq!(days_from_monday(day + 5), 6);
    assert_eq!(
        days_from_monday(day) as u32,
        tuesday.weekday().num_days_from_monday()
    );
}

#[test]
fn stamp_from_ms_keeps_the_timestamp_and_finds_a_nearby_day() {
    let s = stamp_from_ms(0).unwrap();
    assert_eq!(s.ms, 0);
    // 1970-01-01 is day 719163 from the calendar's origin; whatever
    // the machine's time zone, the local day is at most one off.
    assert!((s.day - 719_163).abs() <= 1);

    let week_later = stamp_from_ms(7 * 86_400_000).unwrap();
    assert_eq!(week_later.ms, 7 * 86_400_000);
    assert!((week_later.day - 719_170).abs() <= 1);
}

#[test]
fn clamped_add_sticks_at_the_edges() {
    assert_eq!(clamped_add(1, 2), 3);
    assert_eq!(clamped_add(i64::MAX, 1), i64::MAX);
    assert_eq!(clamped_add(i64::MAX - 5, 10), i64::MAX);
    assert_eq!(clamped_add(i64::MIN, -1), i64::MIN);
    assert_eq!(clamped_add(-3, 5), 2);
    assert!(MAX_ABS_MS > 0);
}
