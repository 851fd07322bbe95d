use chrono::Datelike;
use chrono::DateTime;
use chrono::TimeZone;
use chrono::Utc;
use timings::Stamp;
use timings::SummaryForDay;
use timings::TimingStore;
use timings::TimingsRecorder;

fn stamp(dt: DateTime<Utc>) -> Stamp {
    Stamp {
        ms: dt.timestamp_millis(),
        day: dt.date_naive().num_days_from_ce() as i64,
    }
}

fn t0() -> DateTime<Utc> {
    Utc.with_ymd_and_hms(2023, 7, 3, 10, 0, 0).unwrap()
}

fn note(day: i64, text: &str) -> SummaryForDay {
    SummaryForDay {
        day,
        project: "P".to_string(),
        client: "A".to_string(),
        summary: text.to_string(),
        archived: false,
    }
}

#[test]
fn get_summary_reads_through_and_caches() {
    let mut store = TimingStore::new();
    let mut recorder = TimingsRecorder::new(0);
    let now = stamp(t0());
    let day = now.day;
    store.insert_timings_daily_summaries(&vec![note(day, "wrote the report")]);

    assert_eq!(recorder.get_summary_if_cached(day, "A", "P"), None);
    let text = recorder.get_summary(day, "A", "P", now, &mut store);
    assert_eq!(text, "wrote the report");
    assert_eq!(
        recorder.get_summary_if_cached(day, "A", "P"),
        Some("wrote the report".to_string())
    );

    // The ledger moves on, but the cached note answers.
    store.insert_timings_daily_summaries(&vec![note(day, "changed later")]);
    let text = recorder.get_summary(day, "A", "P", now, &mut store);
    assert_eq!(text, "wrote the report");
}

#[test]
fn get_summary_missing_note_is_empty_and_not_cached() {
    let mut store = TimingStore::new();
    let mut recorder = TimingsRecorder::new(0);
    let now = stamp(t0());
    let day = now.day;

    let text = recorder.get_summary(day, "A", "P", now, &mut store);
    assert_eq!(text, "");
    assert_eq!(recorder.get_summary_if_cached(day, "A", "P"), None);
}

#[test]
fn get_summary_flushes_open_work_first() {
    let mut store = TimingStore::new();
    let mut recorder = TimingsRecorder::new(0);
    let start = stamp(t0());
    recorder.start_timing("A".to_string(), "P".to_string(), start);

    let now = stamp(t0() + chrono::Duration::seconds(42));
    recorder.get_summary(now.day, "A", "P", now, &mut store);

    // The cold read-through flushed the open session speculatively.
    let rows = store.get_timings(None);
    assert_eq!(rows.len(), 1);
    assert_eq!(rows[0].start, start);
    assert_eq!(rows[0].end, now);
}
