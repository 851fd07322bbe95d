use chrono::Datelike;
use chrono::DateTime;
use chrono::TimeZone;
use chrono::Utc;
use timings::Stamp;
use timings::TimingStore;
use timings::TimingsRecorder;

fn stamp(dt: DateTime<Utc>) -> Stamp {
    Stamp {
        ms: dt.timestamp_millis(),
        day: dt.date_naive().num_days_from_ce() as i64,
    }
}

fn secs(n: i64) -> chrono::Duration {
    chrono::Duration::seconds(n)
}

fn call_keep_alives(recorder: &mut TimingsRecorder, start: DateTime<Utc>, end: DateTime<Utc>) {
    let duration = (end - start).num_seconds() as usize;
    let keep_alive_intervals = duration / 30;
    for i in 1..=keep_alive_intervals {
        let keep_alive_time = start + secs((i * 30) as i64);
        recorder.keep_alive_timing(stamp(keep_alive_time));
    }
}

#[test]
fn test_start_timing_multiple_and_persist() {
    let mut store = TimingStore::new();
    let mut recorder = TimingsRecorder::new(0);
    let start_time = Utc.with_ymd_and_hms(2020, 5, 5, 12, 0, 0).unwrap();

    let times = vec![
        ("cli_a", "proj_a", start_time, start_time + secs(60)),
        ("cli_b", "proj_b", start_time + secs(120), start_time + secs(180)),
        ("cli_c", "proj_c", start_time + secs(240), start_time + secs(300)),
    ];

    for (client, project, start, end) in times.iter() {
        recorder.keep_alive_timing(stamp(*start));
        recorder.start_timing(client.to_string(), project.to_string(), stamp(*start));
        call_keep_alives(&mut recorder, *start, *end);
        recorder.stop_timing(stamp(*end));
    }

    let write_time = start_time + secs(400);
    recorder.write_timings(&mut store, stamp(write_time));

    let timings = store.get_timings(None);

    assert_eq!(timings.len(), 3);

    let mut sorted_timings = timings.clone();
    sorted_timings.sort_by_key(|t| t.start.ms);

    assert_eq!(sorted_timings[0].client, "cli_a");
    assert_eq!(sorted_timings[0].project, "proj_a");
    assert_eq!(sorted_timings[0].start, stamp(start_time));
    assert_eq!(sorted_timings[0].end, stamp(start_time + secs(60)));

    assert_eq!(sorted_timings[1].client, "cli_b");
    assert_eq!(sorted_timings[1].project, "proj_b");
    assert_eq!(sorted_timings[1].start, stamp(start_time + secs(120)));
    assert_eq!(sorted_timings[1].end, stamp(start_time + secs(180)));

    assert_eq!(sorted_timings[2].client, "cli_c");
    assert_eq!(sorted_timings[2].project, "proj_c");
    assert_eq!(sorted_timings[2].start, stamp(start_time + secs(240)));
    assert_eq!(sorted_timings[2].end, stamp(start_time + secs(300)));
}

#[test]
fn test_keep_alive_timeout_splits_timing() {
    let mut store = TimingStore::new();
    let mut recorder = TimingsRecorder::new(0);
    let start_time = Utc.with_ymd_and_hms(2020, 5, 5, 12, 0, 0).unwrap();

    recorder.start_timing("client1".to_string(), "project1".to_string(), stamp(start_time));

    // First keep-alive at 30 seconds.
    recorder.keep_alive_timing(stamp(start_time + secs(30)));

    // Second keep-alive at 91 seconds - more than 60 seconds after
    // the first (30s). This should trigger the split: one timing
    // ending at the first keep-alive (30s), and the current timing
    // restarting at 91 seconds.
    recorder.keep_alive_timing(stamp(start_time + secs(91)));

    recorder.stop_timing(stamp(start_time + secs(120)));

    recorder.write_timings(&mut store, stamp(start_time + secs(130)));

    let timings = store.get_timings(None);

    assert_eq!(timings.len(), 2, "Expected timing to be split into 2 parts");

    let mut sorted_timings = timings.clone();
    sorted_timings.sort_by_key(|t| t.start.ms);

    assert_eq!(sorted_timings[0].client, "client1");
    assert_eq!(sorted_timings[0].project, "project1");
    assert_eq!(sorted_timings[0].start, stamp(start_time));
    assert_eq!(sorted_timings[0].end, stamp(start_time + secs(30)));

    assert_eq!(sorted_timings[1].client, "client1");
    assert_eq!(sorted_timings[1].project, "project1");
    assert_eq!(sorted_timings[1].start, stamp(start_time + secs(91)));
    assert_eq!(sorted_timings[1].end, stamp(start_time + secs(120)));
}

#[test]
fn test_minimum_timing_3_seconds() {
    let mut store = TimingStore::new();
    let mut recorder = TimingsRecorder::new(3000);
    let start_time = Utc.with_ymd_and_hms(2020, 5, 5, 12, 0, 0).unwrap();

    // Short timing (2s) should be ignored.
    recorder.start_timing("cli_short".to_string(), "proj_short".to_string(), stamp(start_time));
    recorder.stop_timing(stamp(start_time + secs(2)));
    recorder.write_timings(&mut store, stamp(start_time + secs(3)));
    let timings = store.get_timings(None);
    assert_eq!(timings.len(), 0, "Short timing should be ignored");

    // Longer timing (4s) should be recorded.
    recorder.start_timing(
        "cli_long".to_string(),
        "proj_long".to_string(),
        stamp(start_time + secs(10)),
    );
    recorder.stop_timing(stamp(start_time + secs(14)));
    recorder.write_timings(&mut store, stamp(start_time + secs(15)));
    let timings = store.get_timings(None);
    assert_eq!(timings.len(), 1, "Long timing should be recorded");
}

#[test]
fn test_write_timings_includes_current_running_timing() {
    let mut store = TimingStore::new();
    let mut recorder = TimingsRecorder::new(3000);
    let start_time = Utc.with_ymd_and_hms(2020, 5, 5, 12, 0, 0).unwrap();

    // Start a timing but don't stop it.
    recorder.start_timing(
        "client_running".to_string(),
        "project_running".to_string(),
        stamp(start_time),
    );

    // Write 10 seconds later - should include the running timing.
    let first_write_time = start_time + secs(10);
    recorder.write_timings(&mut store, stamp(first_write_time));

    let timings = store.get_timings(None);
    assert_eq!(timings.len(), 1, "Running timing should be saved");
    assert_eq!(timings[0].client, "client_running");
    assert_eq!(timings[0].project, "project_running");
    assert_eq!(timings[0].start, stamp(start_time));
    assert_eq!(timings[0].end, stamp(first_write_time), "End should match first write time");

    // Write again 5 seconds later - should update the same timing
    // with the new end time (no duplicates).
    let second_write_time = start_time + secs(15);
    recorder.write_timings(&mut store, stamp(second_write_time));

    let timings_after_second_write = store.get_timings(None);
    assert_eq!(
        timings_after_second_write.len(),
        1,
        "Should still have only one timing (no duplicates)"
    );
    assert_eq!(
        timings_after_second_write[0].end,
        stamp(second_write_time),
        "End should be updated to second write time"
    );
}

#[test]
fn test_write_timings_respects_minimum_for_running_timing() {
    let mut store = TimingStore::new();
    let mut recorder = TimingsRecorder::new(10_000);
    let start_time = Utc.with_ymd_and_hms(2020, 5, 5, 12, 0, 0).unwrap();

    // Start a timing but don't stop it.
    recorder.start_timing(
        "client_short".to_string(),
        "project_short".to_string(),
        stamp(start_time),
    );

    // Write only 2 seconds later - the current timing is too short,
    // so it should not be saved.
    recorder.write_timings(&mut store, stamp(start_time + secs(2)));

    let timings = store.get_timings(None);
    assert_eq!(timings.len(), 0, "Short running timing should not be saved");

    // Now start a different timing.
    recorder.start_timing(
        "client_long".to_string(),
        "project_long".to_string(),
        stamp(start_time + secs(100)),
    );

    // Write 15 seconds after the long timing started - exceeds the
    // minimum.
    recorder.write_timings(&mut store, stamp(start_time + secs(115)));

    let timings = store.get_timings(None);
    assert_eq!(timings.len(), 1, "Long running timing should now be saved");
    assert_eq!(timings[0].client, "client_long");
}
