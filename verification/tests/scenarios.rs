use chrono::Datelike;
use chrono::DateTime;
use chrono::TimeZone;
use chrono::Utc;
use timings::Stamp;
use timings::TimingStore;
use timings::TimingsRecorder;

fn stamp(dt: DateTime<Utc>) -> Stamp {
    Stamp {
        ms: dt.timestamp_millis(),
        day: dt.date_naive().num_days_from_ce() as i64,
    }
}

fn secs(n: i64) -> chrono::Duration {
    chrono::Duration::seconds(n)
}

fn t0() -> DateTime<Utc> {
    Utc.with_ymd_and_hms(2021, 3, 10, 9, 0, 0).unwrap()
}

#[test]
fn scenario_start_stop_flush_persists_one_interval() {
    let mut store = TimingStore::new();
    let mut recorder = TimingsRecorder::new(0);

    recorder.start_timing("A".to_string(), "P".to_string(), stamp(t0()));
    recorder.stop_timing(stamp(t0() + secs(60)));
    recorder.write_timings(&mut store, stamp(t0() + secs(61)));

    let rows = store.get_timings(None);
    assert_eq!(rows.len(), 1);
    assert_eq!(rows[0].client, "A");
    assert_eq!(rows[0].project, "P");
    assert_eq!(rows[0].start, stamp(t0()));
    assert_eq!(rows[0].end, stamp(t0() + secs(60)));
}

#[test]
fn scenario_late_keep_alive_makes_two_intervals() {
    let mut store = TimingStore::new();
    let mut recorder = TimingsRecorder::new(0);

    recorder.start_timing("A".to_string(), "P".to_string(), stamp(t0()));
    recorder.keep_alive_timing(stamp(t0() + secs(30)));
    recorder.keep_alive_timing(stamp(t0() + secs(91)));
    recorder.stop_timing(stamp(t0() + secs(120)));
    recorder.write_timings(&mut store, stamp(t0() + secs(121)));

    let mut rows = store.get_timings(None);
    rows.sort_by_key(|t| t.start.ms);
    assert_eq!(rows.len(), 2);
    assert_eq!(rows[0].start, stamp(t0()));
    assert_eq!(rows[0].end, stamp(t0() + secs(30)));
    assert_eq!(rows[1].start, stamp(t0() + secs(91)));
    assert_eq!(rows[1].end, stamp(t0() + secs(120)));
}

#[test]
fn scenario_below_minimum_persists_nothing() {
    let mut store = TimingStore::new();
    let mut recorder = TimingsRecorder::new(3000);

    recorder.start_timing("A".to_string(), "P".to_string(), stamp(t0()));
    recorder.stop_timing(stamp(t0() + secs(2)));
    recorder.write_timings(&mut store, stamp(t0() + secs(3)));

    assert_eq!(store.get_timings(None).len(), 0);
}

#[test]
fn scenario_repeated_flush_updates_open_session_row() {
    let mut store = TimingStore::new();
    let mut recorder = TimingsRecorder::new(0);

    recorder.start_timing("A".to_string(), "P".to_string(), stamp(t0()));

    recorder.write_timings(&mut store, stamp(t0() + secs(10)));
    let rows = store.get_timings(None);
    assert_eq!(rows.len(), 1);
    assert_eq!(rows[0].start, stamp(t0()));
    assert_eq!(rows[0].end, stamp(t0() + secs(10)));

    recorder.write_timings(&mut store, stamp(t0() + secs(15)));
    let rows = store.get_timings(None);
    assert_eq!(rows.len(), 1, "still one row after the second flush");
    assert_eq!(rows[0].end, stamp(t0() + secs(15)));
}

#[test]
fn scenario_cold_get_totals_with_no_history_is_zero() {
    let mut store = TimingStore::new();
    let mut recorder = TimingsRecorder::new(0);
    let now = stamp(t0());

    let totals = recorder.get_totals("A", "P", now, &mut store);
    assert_eq!(totals.today, 0);
    assert_eq!(totals.this_week, 0);
    assert_eq!(totals.last_week, 0);
    assert_eq!(totals.eight_weeks, 0);
}

#[test]
fn scenario_duplicate_start_is_a_no_op() {
    let mut store = TimingStore::new();
    let mut recorder = TimingsRecorder::new(0);

    let first = recorder.start_timing("A".to_string(), "P".to_string(), stamp(t0()));
    let second = recorder.start_timing("A".to_string(), "P".to_string(), stamp(t0() + secs(5)));
    assert!(first, "first call starts a new session");
    assert!(!second, "second call reports no new session started");

    recorder.stop_timing(stamp(t0() + secs(60)));
    recorder.write_timings(&mut store, stamp(t0() + secs(61)));

    let rows = store.get_timings(None);
    assert_eq!(rows.len(), 1, "no extra interval was finalized");
    assert_eq!(rows[0].start, stamp(t0()));
    assert_eq!(rows[0].end, stamp(t0() + secs(60)));
}

#[test]
fn scenario_blank_names_stop_the_session() {
    let mut store = TimingStore::new();
    let mut recorder = TimingsRecorder::new(0);

    recorder.start_timing("A".to_string(), "P".to_string(), stamp(t0()));
    assert!(recorder.is_running());
    let started = recorder.start_timing("  ".to_string(), "P".to_string(), stamp(t0() + secs(40)));
    assert!(!started);
    assert!(!recorder.is_running(), "blank client stops the session");

    recorder.write_timings(&mut store, stamp(t0() + secs(41)));
    let rows = store.get_timings(None);
    assert_eq!(rows.len(), 1);
    assert_eq!(rows[0].end, stamp(t0() + secs(40)));
}

#[test]
fn scenario_running_changes_are_polled() {
    let mut recorder = TimingsRecorder::new(0);
    assert_eq!(recorder.take_running_changed(), None);

    recorder.start_timing("A".to_string(), "P".to_string(), stamp(t0()));
    assert_eq!(recorder.take_running_changed(), Some(true));
    assert_eq!(recorder.take_running_changed(), None);

    recorder.stop_timing(stamp(t0() + secs(10)));
    assert_eq!(recorder.take_running_changed(), Some(false));
    assert_eq!(recorder.take_running_changed(), None);
}

#[test]
fn scenario_cold_get_totals_reads_eight_weeks_of_history() {
    let mut store = TimingStore::new();
    let mut recorder = TimingsRecorder::new(0);
    // 2021-03-10 is a Wednesday.
    let now_dt = Utc.with_ymd_and_hms(2021, 3, 10, 18, 0, 0).unwrap();
    let span = |client: &str, start: DateTime<Utc>, hours: i64| timings::Timing {
        start: stamp(start),
        end: stamp(start + chrono::Duration::hours(hours)),
        client: client.to_string(),
        project: "P".to_string(),
    };
    store.insert_timings(&vec![
        // One hour today.
        span("A", Utc.with_ymd_and_hms(2021, 3, 10, 9, 0, 0).unwrap(), 1),
        // Two hours ten days back: inside eight weeks, before last week.
        span("A", Utc.with_ymd_and_hms(2021, 2, 28, 9, 0, 0).unwrap(), 2),
        // Five hours sixty days back: outside the eight-week window.
        span("A", Utc.with_ymd_and_hms(2021, 1, 9, 9, 0, 0).unwrap(), 5),
        // Another pair's work never leaks in.
        span("B", Utc.with_ymd_and_hms(2021, 3, 10, 9, 0, 0).unwrap(), 3),
    ]);

    let totals = recorder.get_totals("A", "P", stamp(now_dt), &mut store);
    assert_eq!(totals.today, 3_600_000);
    assert_eq!(totals.this_week, 3_600_000);
    assert_eq!(totals.last_week, 0);
    assert_eq!(totals.eight_weeks, 3 * 3_600_000);
}

#[test]
fn scenario_external_ledger_drives_the_cold_fill() {
    // A collaborator that keeps the ledger outside this process
    // fills a cold pair itself: miss, read, install, then ask.
    let mut recorder = TimingsRecorder::new(0);
    let now = stamp(t0());
    assert!(!recorder.has_cached_totals("A", "P"));
    assert_eq!(recorder.get_cached_totals("A", "P", now), None);

    let rows = vec![timings::DailyTotalSummary {
        day: now.day,
        total_ms: 2_400_000,
        client: "A".to_string(),
        project: "P".to_string(),
    }];
    recorder.install_daily_totals("A", "P", &rows);

    assert!(recorder.has_cached_totals("A", "P"));
    let totals = recorder.get_cached_totals("A", "P", now).unwrap();
    assert_eq!(totals.today, 2_400_000);
    assert_eq!(totals.eight_weeks, 2_400_000);
    assert_eq!(totals.last_week, 0);
}

#[test]
fn scenario_warm_get_totals_includes_open_session() {
    let mut store = TimingStore::new();
    let mut recorder = TimingsRecorder::new(0);
    let now0 = stamp(t0());

    // Cold call warms the cache for (A, P); no session is running.
    let cold = recorder.get_totals("A", "P", now0, &mut store);
    assert_eq!(cold.today, 0);

    // Open a session and ask again 90 seconds in: the warm answer
    // counts the live session in today, this week and eight weeks,
    // never in last week.
    recorder.start_timing("A".to_string(), "P".to_string(), now0);
    let now1 = stamp(t0() + secs(90));
    let warm = recorder.get_totals("A", "P", now1, &mut store);
    assert_eq!(warm.today, 90_000);
    assert_eq!(warm.this_week, 90_000);
    assert_eq!(warm.last_week, 0);
    assert_eq!(warm.eight_weeks, 90_000);
}
