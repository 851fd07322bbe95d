use chrono::Datelike;
use chrono::DateTime;
use chrono::TimeZone;
use chrono::Utc;
use timings::GetTimingsFilters;
use timings::Stamp;
use timings::SummaryForDay;
use timings::Timing;
use timings::TimingStore;

fn stamp(dt: DateTime<Utc>) -> Stamp {
    Stamp {
        ms: dt.timestamp_millis(),
        day: dt.date_naive().num_days_from_ce() as i64,
    }
}

fn t0() -> DateTime<Utc> {
    Utc.with_ymd_and_hms(2022, 1, 12, 8, 0, 0).unwrap()
}

fn secs(n: i64) -> chrono::Duration {
    chrono::Duration::seconds(n)
}

fn span(client: &str, project: &str, start: DateTime<Utc>, dur_s: i64) -> Timing {
    Timing {
        start: stamp(start),
        end: stamp(start + secs(dur_s)),
        client: client.to_string(),
        project: project.to_string(),
    }
}

fn note(client: &str, project: &str, day: i64, text: &str) -> SummaryForDay {
    SummaryForDay {
        day,
        project: project.to_string(),
        client: client.to_string(),
        summary: text.to_string(),
        archived: false,
    }
}

#[test]
fn get_timings_applies_name_and_window_filters() {
    let mut store = TimingStore::new();
    store.insert_timings(&vec![
        span("A", "P", t0(), 60),
        span("B", "Q", t0() + secs(120), 60),
        span("A", "P", t0() + secs(600), 60),
    ]);

    let all = store.get_timings(None);
    assert_eq!(all.len(), 3);

    let only_a = store.get_timings(Some(GetTimingsFilters {
        from: None,
        to: None,
        client: Some("A".to_string()),
        project: None,
    }));
    assert_eq!(only_a.len(), 2);
    assert!(only_a.iter().all(|t| t.client == "A"));

    let windowed = store.get_timings(Some(GetTimingsFilters {
        from: Some(stamp(t0() + secs(100))),
        to: Some(stamp(t0() + secs(200))),
        client: None,
        project: None,
    }));
    assert_eq!(windowed.len(), 1);
    assert_eq!(windowed[0].client, "B");
}

#[test]
fn upsert_is_keyed_by_client_project_and_start() {
    let mut store = TimingStore::new();
    store.insert_timings(&vec![span("A", "P", t0(), 60)]);
    // Same key, longer end: the row is updated in place.
    store.insert_timings(&vec![span("A", "P", t0(), 90)]);
    // Same names, different start: a second row.
    store.insert_timings(&vec![span("A", "P", t0() + secs(300), 30)]);

    let mut rows = store.get_timings(None);
    rows.sort_by_key(|t| t.start.ms);
    assert_eq!(rows.len(), 2);
    assert_eq!(rows[0].end, stamp(t0() + secs(90)));
}

#[test]
fn daily_totals_group_by_pair_and_day() {
    let mut store = TimingStore::new();
    store.insert_timings(&vec![
        span("A", "P", t0(), 3600),
        span("A", "P", t0() + secs(7200), 1800),
        span("B", "Q", t0() + secs(60), 600),
    ]);

    let rows = store.get_timings_daily_totals(
        stamp(t0() - secs(86_400)),
        stamp(t0() + secs(86_400)),
        None,
        None,
    );
    assert_eq!(rows.len(), 2);
    let a = rows.iter().find(|r| r.client == "A").unwrap();
    let b = rows.iter().find(|r| r.client == "B").unwrap();
    assert_eq!(a.total_ms, 5_400_000);
    assert_eq!(a.day, stamp(t0()).day);
    assert_eq!(b.total_ms, 600_000);

    let only_a = store.get_timings_daily_totals(
        stamp(t0() - secs(86_400)),
        stamp(t0() + secs(86_400)),
        Some("A".to_string()),
        Some("P".to_string()),
    );
    assert_eq!(only_a.len(), 1);
    assert_eq!(only_a[0].total_ms, 5_400_000);
}

#[test]
fn summaries_upsert_and_empty_text_deletes() {
    let mut store = TimingStore::new();
    let day = stamp(t0()).day;
    store.insert_timings_daily_summaries(&vec![note("A", "P", day, "first")]);
    store.insert_timings_daily_summaries(&vec![note("A", "P", day, "second")]);
    store.insert_timings_daily_summaries(&vec![note("A", "P", day + 1, "tomorrow")]);

    let rows = store.get_timings_daily_summaries(day, day + 1, None, None);
    assert_eq!(rows.len(), 2);
    let today_note = rows.iter().find(|r| r.day == day).unwrap();
    assert_eq!(today_note.summary, "second");

    // An empty note deletes the row with its key.
    store.insert_timings_daily_summaries(&vec![note("A", "P", day, "")]);
    let rows = store.get_timings_daily_summaries(day, day + 1, None, None);
    assert_eq!(rows.len(), 1);
    assert_eq!(rows[0].day, day + 1);

    // The day-range filter cuts off outside days.
    let rows = store.get_timings_daily_summaries(day, day, None, None);
    assert_eq!(rows.len(), 0);
}

#[test]
fn totals_and_summaries_join_on_day_and_pair() {
    let mut store = TimingStore::new();
    let day = stamp(t0()).day;
    store.insert_timings(&vec![
        span("A", "P", t0(), 3600),
        span("B", "Q", t0() + secs(60), 600),
    ]);
    store.insert_timings_daily_summaries(&vec![note("A", "P", day, "worked on P")]);

    let rows = store.get_timings_daily_totals_and_summaries(
        stamp(t0() - secs(86_400)),
        stamp(t0() + secs(86_400)),
        None,
        None,
    );
    assert_eq!(rows.len(), 2);
    let a = rows.iter().find(|r| r.client == "A").unwrap();
    assert_eq!(a.total_ms, 3_600_000);
    assert_eq!(a.summary, "worked on P");
    assert!(!a.archived);
    let b = rows.iter().find(|r| r.client == "B").unwrap();
    assert_eq!(b.total_ms, 600_000);
    assert_eq!(b.summary, "");
}
