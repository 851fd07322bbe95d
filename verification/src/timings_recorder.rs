//! The session state machine.
//!
//! A recorder is either idle or recording one (client, project)
//! session. Activity signals drive it: `start_timing` opens or
//! switches the session, `stop_timing` closes it, and periodic
//! `keep_alive_timing` calls prove the session is still being
//! observed — a keep-alive gap longer than [`KEEP_ALIVE_GAP_MS`] is
//! read as a sleep or hibernation, and splits the session instead of
//! letting it span the gap. Finalized spans pass a minimum-duration
//! filter and wait in a buffer until a flush confirms they are
//! persisted.
//!
//! Every operation's outcome is stated as a pure transition on
//! [`RecorderView`]; the laws at the end of this module are proved
//! over those transitions.

use vstd::prelude::*;

use crate::api::CurrentTiming;
use crate::api::CurrentTimingView;
use crate::api::Timing;
use crate::api::TimingView;
use crate::api::copy_timing;
use crate::assoc::assoc_map;
use crate::assoc::distinct_keys;
use crate::assoc::lemma_assoc_map_contains;
use crate::assoc::lemma_assoc_map_index;
use crate::assoc::lemma_assoc_map_push;
use crate::store::TimingStore;
use crate::store::spec_daily_totals;
use crate::store::spec_filter_summaries;
use crate::store::spec_upsert_timings;
use crate::store::timing_views;
use crate::text::trim_of;
use crate::text::trimmed;
use crate::time::Stamp;
use crate::time::valid_stamp;
use crate::totals_cache::EIGHT_WEEKS_MS;
use crate::totals_cache::Totals;
use crate::totals_cache::TotalsCache;
use crate::totals_cache::day_slice;
use crate::totals_cache::spec_cache_add;
use crate::totals_cache::spec_to_totals;
use crate::totals_cache::spec_with_current;

verus! {

/// The longest silence between keep-alives that still counts as an
/// uninterrupted session, in milliseconds. The external scheduler is
/// expected to call in about every 30 seconds; twice that is read as
/// a suspend/sleep/hibernate gap.
pub const KEEP_ALIVE_GAP_MS: i64 = 60_000;

/// The recorder's state as the contracts see it.
pub ghost struct RecorderView {
    /// Finalized spans not yet confirmed persisted, oldest first.
    pub buffer: Seq<TimingView>,
    /// The open session, if one is recording.
    pub current: Option<CurrentTimingView>,
    /// When the last keep-alive arrived.
    pub last_keep_alive: Option<Stamp>,
    /// Spans shorter than this many milliseconds are discarded.
    pub minimum_ms: int,
    /// The per-pair totals cache: day buckets for each warm pair.
    pub cache: Map<(Seq<char>, Seq<char>), Map<i64, i64>>,
    /// The day-note cache, keyed by (day, client, project).
    pub summaries: Map<(i64, Seq<char>, Seq<char>), Seq<char>>,
    /// The last not-yet-collected running-state change, if any.
    pub pending_running_change: Option<bool>,
}

/// What a well-formed recorder maintains: the minimum is
/// non-negative, every buffered span passed the filter, and every
/// held instant lies in the arithmetic range.
pub open spec fn view_wf(v: RecorderView) -> bool {
    &&& v.minimum_ms >= 0
    &&& forall|i: int|
        0 <= i < v.buffer.len() ==> (#[trigger] v.buffer[i]).valid()
            && v.buffer[i].duration_ms() >= v.minimum_ms && v.buffer[i].duration_ms() > 0
    &&& match v.current {
        Some(c) => valid_stamp(c.start),
        None => true,
    }
    &&& match v.last_keep_alive {
        Some(k) => valid_stamp(k),
        None => true,
    }
}

/// One finalized span offered to the ledger. Shorter than the
/// minimum, or not positive, it is dropped entirely — it reaches
/// neither the buffer nor the cache. Otherwise it joins the buffer
/// and the warm cache bucket of its start day.
pub open spec fn spec_add_timing(v: RecorderView, t: TimingView) -> RecorderView {
    let dur = t.duration_ms();
    if dur < v.minimum_ms {
        v
    } else if dur > 0 {
        RecorderView { buffer: v.buffer.push(t), cache: spec_cache_add(v.cache, t), ..v }
    } else {
        v
    }
}

/// Closing the open session at `now`: its span is offered to the
/// ledger and the recorder goes idle. Idle already, nothing changes.
pub open spec fn spec_finalize(v: RecorderView, now: Stamp) -> RecorderView {
    match v.current {
        Some(c) => spec_add_timing(
            RecorderView { current: None, ..v },
            TimingView { start: c.start, end: now, client: c.client, project: c.project },
        ),
        None => v,
    }
}

/// A keep-alive at `now`. A late one — more than
/// [`KEEP_ALIVE_GAP_MS`] after the previous — finalizes the open
/// session at the previous keep-alive instant and restarts it at
/// `now`, so the silent gap is never recorded. The keep-alive clock
/// always advances to `now`.
pub open spec fn spec_keep_alive(v: RecorderView, now: Stamp) -> RecorderView {
    let stepped = if v.current is Some && v.last_keep_alive is Some && now.ms
        - v.last_keep_alive->Some_0.ms > KEEP_ALIVE_GAP_MS {
        let c = v.current->Some_0;
        let lka = v.last_keep_alive->Some_0;
        let split = spec_add_timing(
            v,
            TimingView { start: c.start, end: lka, client: c.client, project: c.project },
        );
        RecorderView {
            current: Some(CurrentTimingView { start: now, client: c.client, project: c.project }),
            ..split
        }
    } else {
        v
    };
    RecorderView { last_keep_alive: Some(now), ..stepped }
}

/// Stopping at `now`: an implicit keep-alive, then the open session
/// (if any) is finalized, and a running-state change to "not
/// recording" is left for the collaborators to collect. Stopping
/// while idle changes nothing else.
pub open spec fn spec_stop(v: RecorderView, now: Stamp) -> RecorderView {
    let v1 = spec_finalize(spec_keep_alive(v, now), now);
    RecorderView { pending_running_change: Some(false), ..v1 }
}

/// Starting (client, project) at `now`, after an implicit
/// keep-alive. A blank client or project stops the session instead.
/// Starting the pair that is already recording is a no-op. Otherwise
/// any open session is finalized and a new one opens at `now`. The
/// boolean says whether a new session actually started.
pub open spec fn spec_start(
    v: RecorderView,
    client: Seq<char>,
    project: Seq<char>,
    now: Stamp,
) -> (RecorderView, bool) {
    let c = trim_of(client);
    let p = trim_of(project);
    let v1 = spec_keep_alive(v, now);
    if c.len() == 0 || p.len() == 0 {
        (spec_stop(v1, now), false)
    } else if v1.current matches Some(cur) && cur.client == c && cur.project == p {
        (v1, false)
    } else {
        let v2 = spec_finalize(v1, now);
        (
            RecorderView {
                current: Some(CurrentTimingView { start: now, client: c, project: p }),
                pending_running_change: Some(true),
                ..v2
            },
            true,
        )
    }
}

/// What a flush at `now` hands to the ledger: the buffered spans,
/// and — when the open session has already reached the minimum
/// duration — a speculative span for it ending at `now`, which stays
/// open in memory and is upserted again by later flushes.
pub open spec fn spec_timings_to_write(v: RecorderView, now: Stamp) -> Seq<TimingView> {
    match v.current {
        Some(c) => if now.ms - c.start.ms >= v.minimum_ms {
            v.buffer.push(
                TimingView { start: c.start, end: now, client: c.client, project: c.project },
            )
        } else {
            v.buffer
        },
        None => v.buffer,
    }
}

/// The association view of the day-note cache's entries.
pub open spec fn summary_assoc(s: Seq<((i64, String, String), String)>) -> Seq<
    ((i64, Seq<char>, Seq<char>), Seq<char>),
> {
    s.map_values(|e: ((i64, String, String), String)| ((e.0.0, e.0.1@, e.0.2@), e.1@))
}

/// The session state machine. It owns at most one open session, the
/// buffer of finalized-but-unpersisted spans, the totals cache and
/// the day-note cache.
///
/// Running-state changes are exposed as a polled outbound event:
/// every transition between idle and recording leaves the new state
/// in a pending slot that [`TimingsRecorder::take_running_changed`]
/// collects, so no callback runs inside a state-mutating call.
pub struct TimingsRecorder {
    unwritten_timings: Vec<Timing>,
    current_timing: Option<CurrentTiming>,
    last_keep_alive: Option<Stamp>,
    minimum_timing: i64,
    totals_cache: TotalsCache,
    summary_cache: Vec<((i64, String, String), String)>,
    running_changed: Option<bool>,
}

impl View for TimingsRecorder {
    type V = RecorderView;

    closed spec fn view(&self) -> RecorderView {
        RecorderView {
            buffer: timing_views(self.unwritten_timings@),
            current: match self.current_timing {
                Some(ref c) => Some(c@),
                None => None,
            },
            last_keep_alive: self.last_keep_alive,
            minimum_ms: self.minimum_timing as int,
            cache: self.totals_cache@,
            summaries: assoc_map(summary_assoc(self.summary_cache@)),
            pending_running_change: self.running_changed,
        }
    }
}

impl TimingsRecorder {
    /// The recorder's internal invariant.
    pub closed spec fn inv(self) -> bool {
        &&& view_wf(self@)
        &&& self.totals_cache.wf()
        &&& distinct_keys(summary_assoc(self.summary_cache@))
    }

    /// A fresh, idle recorder. A negative minimum is clamped to
    /// zero.
    pub fn new(minimum_timing: i64) -> (r: TimingsRecorder)
        ensures
            r@ == (RecorderView {
                buffer: Seq::<TimingView>::empty(),
                current: None::<CurrentTimingView>,
                last_keep_alive: None::<Stamp>,
                minimum_ms: if minimum_timing < 0 {
                    0
                } else {
                    minimum_timing as int
                },
                cache: Map::<(Seq<char>, Seq<char>), Map<i64, i64>>::empty(),
                summaries: Map::<(i64, Seq<char>, Seq<char>), Seq<char>>::empty(),
                pending_running_change: None::<bool>,
            }),
            r.inv(),
    {
        let min: i64 = if minimum_timing < 0 {
            0
        } else {
            minimum_timing
        };
        let r = TimingsRecorder {
            unwritten_timings: Vec::new(),
            current_timing: None,
            last_keep_alive: None,
            minimum_timing: min,
            totals_cache: TotalsCache::new(),
            summary_cache: Vec::new(),
            running_changed: None,
        };
        proof {
            assert(timing_views(r.unwritten_timings@) =~= Seq::<TimingView>::empty());
            assert(summary_assoc(r.summary_cache@) =~= Seq::<
                ((i64, Seq<char>, Seq<char>), Seq<char>),
            >::empty());
        }
        r
    }

    /// Whether a session is currently recording.
    pub fn is_running(&self) -> (r: bool)
        ensures
            r == (self@.current is Some),
    {
        self.current_timing.is_some()
    }

    /// Collects the latest running-state change, if one has not been
    /// collected yet.
    pub fn take_running_changed(&mut self) -> (r: Option<bool>)
        requires
            old(self).inv(),
        ensures
            r == old(self)@.pending_running_change,
            final(self)@ == (RecorderView { pending_running_change: None::<bool>, ..old(self)@ }),
            final(self).inv(),
    {
        let r = self.running_changed;
        self.running_changed = None;
        r
    }

    /// Offers one finalized span to the ledger, through the
    /// minimum-duration filter.
    fn add_timing(&mut self, timing: Timing)
        requires
            old(self).inv(),
            timing@.valid(),
        ensures
            final(self)@ == spec_add_timing(old(self)@, timing@),
            final(self).inv(),
    {
        let duration: i64 = timing.end.ms - timing.start.ms;
        if duration < self.minimum_timing {
            return ;
        }
        if duration > 0 {
            let ghost buf_before = self.unwritten_timings@;
            self.totals_cache.add_timing(&timing);
            self.unwritten_timings.push(timing);
            proof {
                assert(timing_views(self.unwritten_timings@) =~= timing_views(buf_before).push(
                    self.unwritten_timings@.last()@,
                ));
                assert(self@ == spec_add_timing(old(self)@, self.unwritten_timings@.last()@));
            }
        }
    }

    /// Finalizes the open session at `now`, leaving the keep-alive
    /// clock alone.
    fn finalize_current_timing(&mut self, now: Stamp)
        requires
            old(self).inv(),
            valid_stamp(now),
        ensures
            final(self)@ == spec_finalize(old(self)@, now),
            final(self).inv(),
    {
        let timing: Option<Timing> = match &self.current_timing {
            Some(c) => Some(
                Timing {
                    start: c.start,
                    end: now,
                    client: c.client.clone(),
                    project: c.project.clone(),
                },
            ),
            None => None,
        };
        match timing {
            Some(t) => {
                self.current_timing = None;
                self.add_timing(t);
            },
            None => {},
        }
    }

    /// Records a keep-alive at `now`. A late one splits the open
    /// session: the span up to the previous keep-alive is finalized
    /// and the session restarts at `now`.
    pub fn keep_alive_timing(&mut self, now: Stamp)
        requires
            old(self).inv(),
            valid_stamp(now),
        ensures
            final(self)@ == spec_keep_alive(old(self)@, now),
            final(self).inv(),
    {
        let split: Option<(Timing, CurrentTiming)> = match (
            &self.current_timing,
            &self.last_keep_alive,
        ) {
            (Some(c), Some(lka)) if now.ms - lka.ms > KEEP_ALIVE_GAP_MS => Some(
                (
                    Timing {
                        start: c.start,
                        end: *lka,
                        client: c.client.clone(),
                        project: c.project.clone(),
                    },
                    CurrentTiming { start: now, client: c.client.clone(), project: c.project.clone() },
                ),
            ),
            _ => None,
        };
        match split {
            Some((t, restarted)) => {
                self.current_timing = Some(restarted);
                self.add_timing(t);
            },
            None => {},
        }
        self.last_keep_alive = Some(now);
    }

    /// Stops the session at `now` (implicit keep-alive first) and
    /// leaves a "not recording" state change to collect. Stopping
    /// while idle is a safe no-op.
    pub fn stop_timing(&mut self, now: Stamp)
        requires
            old(self).inv(),
            valid_stamp(now),
        ensures
            final(self)@ == spec_stop(old(self)@, now),
            final(self).inv(),
    {
        self.keep_alive_timing(now);
        self.finalize_current_timing(now);
        self.running_changed = Some(false);
    }

    /// Starts recording (client, project) at `now`, after an
    /// implicit keep-alive. Blank names stop the session instead;
    /// starting the pair already recording is a no-op. Returns
    /// whether a new session actually started.
    pub fn start_timing(&mut self, client: String, project: String, now: Stamp) -> (r: bool)
        requires
            old(self).inv(),
            valid_stamp(now),
        ensures
            final(self)@ == spec_start(old(self)@, client@, project@, now).0,
            r == spec_start(old(self)@, client@, project@, now).1,
            final(self).inv(),
    {
        let c = trimmed(client.as_str());
        let p = trimmed(project.as_str());
        self.keep_alive_timing(now);
        if c.as_str().is_empty() || p.as_str().is_empty() {
            self.stop_timing(now);
            return false;
        }
        let same: bool = match &self.current_timing {
            Some(cur) => cur.client == c && cur.project == p,
            None => false,
        };
        if same {
            return false;
        }
        self.finalize_current_timing(now);
        self.current_timing = Some(CurrentTiming { start: now, client: c, project: p });
        self.running_changed = Some(true);
        true
    }

    /// The rows a flush at `now` would hand to the ledger: the
    /// buffered spans, plus a speculative row for the open session
    /// when its elapsed time has reached the minimum.
    pub fn timings_to_write(&self, now: Stamp) -> (r: Vec<Timing>)
        requires
            self.inv(),
            valid_stamp(now),
        ensures
            timing_views(r@) == spec_timings_to_write(self@, now),
            forall|i: int| 0 <= i < r@.len() ==> (#[trigger] r@[i])@.valid(),
    {
        let mut out: Vec<Timing> = Vec::new();
        let n = self.unwritten_timings.len();
        let mut i: usize = 0;
        proof {
            assert(timing_views(out@) =~= self@.buffer.subrange(0, 0));
        }
        while i < n
            invariant
                0 <= i <= n,
                n == self.unwritten_timings@.len(),
                self.inv(),
                timing_views(out@) == self@.buffer.subrange(0, i as int),
            decreases n - i,
        {
            broadcast use crate::store::lemma_timing_views_push;

            let ghost out_before = out@;
            out.push(copy_timing(&self.unwritten_timings[i]));
            proof {
                assert(out@ == out_before.push(out@.last()));
                assert(out@.last()@ == self@.buffer[i as int]);
                assert(timing_views(out@) =~= self@.buffer.subrange(0, i + 1));
            }
            i += 1;
        }
        proof {
            assert(self@.buffer.subrange(0, n as int) =~= self@.buffer);
        }
        match &self.current_timing {
            Some(cur) => {
                if now.ms - cur.start.ms >= self.minimum_timing {
                    broadcast use crate::store::lemma_timing_views_push;

                    let ghost out_before = out@;
                    out.push(
                        Timing {
                            start: cur.start,
                            end: now,
                            client: cur.client.clone(),
                            project: cur.project.clone(),
                        },
                    );
                    proof {
                        assert(out@ == out_before.push(out@.last()));
                        assert(timing_views(out@) =~= spec_timings_to_write(self@, now));
                    }
                }
            },
            None => {},
        }
        proof {
            assert forall|k: int| 0 <= k < out@.len() implies (#[trigger] out@[k])@.valid() by {
                assert(timing_views(out@)[k] == out@[k]@);
                let w = spec_timings_to_write(self@, now);
                if k < self@.buffer.len() {
                    assert(w[k] == self@.buffer[k]);
                    assert((#[trigger] self@.buffer[k]).valid());
                }
            }
        }
        out
    }

    /// Marks the buffered spans as confirmed persisted: only after a
    /// flush has succeeded may the buffer be emptied.
    pub fn confirm_written(&mut self)
        requires
            old(self).inv(),
        ensures
            final(self)@ == (RecorderView { buffer: Seq::<TimingView>::empty(), ..old(self)@ }),
            final(self).inv(),
    {
        self.unwritten_timings.clear();
        proof {
            assert(timing_views(self.unwritten_timings@) =~= Seq::<TimingView>::empty());
        }
    }

    /// Flushes to the ledger: upserts the buffered spans and — when
    /// the open session has reached the minimum — a speculative row
    /// for it, keyed by (client, project, start) so the next flush
    /// updates it in place. The open session itself stays untouched;
    /// the buffer empties only because this in-memory flush cannot
    /// fail.
    pub fn write_timings(&mut self, store: &mut TimingStore, now: Stamp)
        requires
            old(self).inv(),
            old(store).wf(),
            valid_stamp(now),
        ensures
            final(store)@.timings == spec_upsert_timings(
                old(store)@.timings,
                spec_timings_to_write(old(self)@, now),
            ),
            final(store)@.summaries == old(store)@.summaries,
            final(self)@ == (RecorderView { buffer: Seq::<TimingView>::empty(), ..old(self)@ }),
            final(self).inv(),
            final(store).wf(),
    {
        let ts = self.timings_to_write(now);
        store.insert_timings(&ts);
        self.confirm_written();
    }

    /// Answers a rolling-window query for one pair. A cold pair
    /// forces a flush first, so the ledger-backed rebuild sees the
    /// current data, and is then filled from an eight-week window;
    /// a warm pair is answered from the cache and, when it is the
    /// pair of the open session, extended by the session's elapsed
    /// time.
    pub fn get_totals(&mut self, client: &str, project: &str, now: Stamp, store: &mut TimingStore)
        -> (r: Totals)
        requires
            old(self).inv(),
            old(store).wf(),
            valid_stamp(now),
        ensures
            ({
                let key = (client@, project@);
                if old(self)@.cache.contains_key(key) {
                    let cts = match old(self)@.current {
                        Some(c) => if c.client == client@ && c.project == project@ {
                            Some(c.start)
                        } else {
                            None::<Stamp>
                        },
                        None => None::<Stamp>,
                    };
                    let base = spec_to_totals(old(self)@.cache[key], now.day as int);
                    &&& final(self)@ == old(self)@
                    &&& final(store)@ == old(store)@
                    &&& r == match cts {
                        Some(st) => spec_with_current(base, st, now),
                        None => base,
                    }
                } else {
                    let flushed = spec_upsert_timings(
                        old(store)@.timings,
                        spec_timings_to_write(old(self)@, now),
                    );
                    let cold = day_slice(
                        spec_daily_totals(
                            flushed,
                            now.ms - EIGHT_WEEKS_MS,
                            now.ms as int,
                            Some(client@),
                            Some(project@),
                        ),
                        client@,
                        project@,
                    );
                    &&& final(store)@.timings == flushed
                    &&& final(store)@.summaries == old(store)@.summaries
                    &&& final(self)@ == (RecorderView {
                        buffer: Seq::<TimingView>::empty(),
                        cache: old(self)@.cache.insert(key, cold),
                        ..old(self)@
                    })
                    &&& r == spec_to_totals(cold, now.day as int)
                }
            }),
            final(self).inv(),
            final(store).wf(),
    {
        let cached = self.totals_cache.has_cached_totals(client, project);
        let cts: Option<Stamp> = if !cached {
            self.write_timings(store, now);
            None
        } else {
            match &self.current_timing {
                Some(ct) => {
                    let ck = String::from_str(client);
                    let pk = String::from_str(project);
                    if ct.client == ck && ct.project == pk {
                        Some(ct.start)
                    } else {
                        None
                    }
                },
                None => None,
            }
        };
        self.totals_cache.get_totals(client, project, now, store, cts)
    }

    /// Whether the pair's totals are warm in the cache. A cold pair
    /// must be filled from the ledger — flush first, then install
    /// what an eight-week read reports — before its totals can be
    /// trusted.
    pub fn has_cached_totals(&self, client: &str, project: &str) -> (r: bool)
        requires
            self.inv(),
        ensures
            r == self@.cache.contains_key((client@, project@)),
    {
        self.totals_cache.has_cached_totals(client, project)
    }

    /// Installs the rows an eight-week ledger read reported for a
    /// cold pair. Collaborators that keep the ledger outside this
    /// process drive the cold fill with this and
    /// [`TimingsRecorder::get_cached_totals`].
    pub fn install_daily_totals(
        &mut self,
        client: &str,
        project: &str,
        rows: &Vec<crate::api::DailyTotalSummary>,
    )
        requires
            old(self).inv(),
            !old(self)@.cache.contains_key((client@, project@)),
        ensures
            final(self)@ == (RecorderView {
                cache: old(self)@.cache.insert(
                    (client@, project@),
                    crate::totals_cache::spec_rows_map(
                        rows@.map_values(|row: crate::api::DailyTotalSummary| row@),
                    ),
                ),
                ..old(self)@
            }),
            final(self).inv(),
    {
        let dt = crate::totals_cache::DailyTotals::from_rows(rows);
        self.totals_cache.install(client, project, dt);
    }

    /// Answers a rolling-window query from the cache alone: `None`
    /// for a cold pair. When the queried pair is the open session's,
    /// the answer is extended by the session's elapsed time.
    pub fn get_cached_totals(&self, client: &str, project: &str, now: Stamp) -> (r: Option<
        Totals,
    >)
        requires
            self.inv(),
            valid_stamp(now),
        ensures
            ({
                let key = (client@, project@);
                if self@.cache.contains_key(key) {
                    let cts = match self@.current {
                        Some(c) => if c.client == client@ && c.project == project@ {
                            Some(c.start)
                        } else {
                            None::<Stamp>
                        },
                        None => None::<Stamp>,
                    };
                    let base = spec_to_totals(self@.cache[key], now.day as int);
                    r matches Some(t) && t == match cts {
                        Some(st) => spec_with_current(base, st, now),
                        None => base,
                    }
                } else {
                    r is None
                }
            }),
    {
        let cts: Option<Stamp> = match &self.current_timing {
            Some(ct) => {
                let ck = String::from_str(client);
                let pk = String::from_str(project);
                if ct.client == ck && ct.project == pk {
                    Some(ct.start)
                } else {
                    None
                }
            },
            None => None,
        };
        self.totals_cache.get_cached(client, project, now, cts)
    }

    /// The cached note for (day, client, project), when the pair has
    /// been read before.
    pub fn get_summary_if_cached(&self, day: i64, client: &str, project: &str) -> (r: Option<
        String,
    >)
        requires
            self.inv(),
        ensures
            match r {
                Some(s) => self@.summaries.contains_key((day, client@, project@)) && s@
                    == self@.summaries[(day, client@, project@)],
                None => !self@.summaries.contains_key((day, client@, project@)),
            },
    {
        let ck = String::from_str(client);
        let pk = String::from_str(project);
        let n = self.summary_cache.len();
        let mut i: usize = 0;
        while i < n
            invariant
                0 <= i <= n,
                n == self.summary_cache@.len(),
                self.inv(),
                ck@ == client@,
                pk@ == project@,
                forall|j: int|
                    0 <= j < i ==> summary_assoc(self.summary_cache@)[j].0 != (day, client@, project@),
            decreases n - i,
        {
            let e = &self.summary_cache[i];
            if e.0.0 == day && e.0.1 == ck && e.0.2 == pk {
                proof {
                    lemma_assoc_map_index(summary_assoc(self.summary_cache@), i as int);
                }
                return Some(e.1.clone());
            }
            i += 1;
        }
        proof {
            lemma_assoc_map_contains(summary_assoc(self.summary_cache@), (day, client@, project@));
        }
        None
    }

    /// Remembers a note just read from the ledger. Collaborators
    /// that keep the ledger outside this process drive the
    /// read-through themselves: miss, flush, read, then remember.
    pub fn cache_summary(&mut self, day: i64, client: &str, project: &str, text: &String)
        requires
            old(self).inv(),
            !old(self)@.summaries.contains_key((day, client@, project@)),
        ensures
            final(self)@ == (RecorderView {
                summaries: old(self)@.summaries.insert((day, client@, project@), text@),
                ..old(self)@
            }),
            final(self).inv(),
    {
        let ghost s = summary_assoc(self.summary_cache@);
        let ghost key = (day, client@, project@);
        proof {
            lemma_assoc_map_contains(s, key);
            assert(forall|k: int| 0 <= k < s.len() ==> s[k].0 != key);
            lemma_assoc_map_push(s, key, text@);
        }
        self.summary_cache.push(
            ((day, String::from_str(client), String::from_str(project)), text.clone()),
        );
        proof {
            let u = summary_assoc(self.summary_cache@);
            assert(u =~= s.push((key, text@)));
            assert forall|a: int, b: int| 0 <= a < b < u.len() implies u[a].0 != u[b].0 by {
                if b < s.len() {
                    assert(u[a] == s[a] && u[b] == s[b]);
                    assert(s[a].0 != s[b].0);
                } else {
                    assert(u[a] == s[a]);
                    assert(s[a].0 != key);
                }
            }
        }
    }

    /// The note for (day, client, project): from the cache when
    /// warm, else read through from the ledger after a flush. A note
    /// found in the ledger is cached; a missing note answers with an
    /// empty text and caches nothing.
    pub fn get_summary(
        &mut self,
        day: i64,
        client: &str,
        project: &str,
        now: Stamp,
        store: &mut TimingStore,
    ) -> (r: String)
        requires
            old(self).inv(),
            old(store).wf(),
            valid_stamp(now),
        ensures
            ({
                let key = (day, client@, project@);
                if old(self)@.summaries.contains_key(key) {
                    &&& r@ == old(self)@.summaries[key]
                    &&& final(self)@ == old(self)@
                    &&& final(store)@ == old(store)@
                } else {
                    let rows = spec_filter_summaries(
                        old(store)@.summaries,
                        day as int,
                        day as int,
                        Some(client@),
                        Some(project@),
                    );
                    &&& final(store)@.timings == spec_upsert_timings(
                        old(store)@.timings,
                        spec_timings_to_write(old(self)@, now),
                    )
                    &&& final(store)@.summaries == old(store)@.summaries
                    &&& if rows.len() > 0 {
                        r@ == rows[0].summary && final(self)@ == (RecorderView {
                            buffer: Seq::<TimingView>::empty(),
                            summaries: old(self)@.summaries.insert(key, rows[0].summary),
                            ..old(self)@
                        })
                    } else {
                        r@ == Seq::<char>::empty() && final(self)@ == (RecorderView {
                            buffer: Seq::<TimingView>::empty(),
                            ..old(self)@
                        })
                    }
                }
            }),
            final(self).inv(),
            final(store).wf(),
    {
        match self.get_summary_if_cached(day, client, project) {
            Some(cached) => {
                return cached;
            },
            None => {},
        }
        self.write_timings(store, now);
        let rows = store.get_timings_daily_summaries(
            day,
            day,
            Some(String::from_str(client)),
            Some(String::from_str(project)),
        );
        if rows.len() > 0 {
            let text = rows[0].summary.clone();
            proof {
                assert(rows@[0]@ == crate::store::summary_views(rows@)[0]);
            }
            self.cache_summary(day, client, project, &text);
            text
        } else {
            String::new()
        }
    }
}

// What the state machine guarantees, stated and proved over the
// transition functions themselves.

/// A span shorter than the minimum changes nothing at all: it never
/// reaches the buffer, the cache, or — since flushes write only the
/// buffer and sessions past the minimum — anything persisted.
pub proof fn lemma_short_timing_ignored(v: RecorderView, t: TimingView)
    requires
        t.duration_ms() < v.minimum_ms,
    ensures
        spec_add_timing(v, t) == v,
{
}

/// Every buffered span of a well-formed recorder meets the minimum
/// duration and is non-empty.
pub proof fn lemma_buffer_meets_minimum(v: RecorderView, i: int)
    requires
        view_wf(v),
        0 <= i < v.buffer.len(),
    ensures
        v.buffer[i].duration_ms() >= v.minimum_ms,
        v.buffer[i].duration_ms() > 0,
{
}

/// Everything a flush hands to the ledger meets the minimum
/// duration: the buffered spans do, and the speculative row for the
/// open session is included only once its elapsed time does.
pub proof fn lemma_written_meet_minimum(v: RecorderView, now: Stamp, i: int)
    requires
        view_wf(v),
        0 <= i < spec_timings_to_write(v, now).len(),
    ensures
        spec_timings_to_write(v, now)[i].duration_ms() >= v.minimum_ms,
{
}

/// A keep-alive that arrives on time — within [`KEEP_ALIVE_GAP_MS`]
/// of the previous one — changes nothing but the keep-alive clock.
pub proof fn lemma_keep_alive_on_time(v: RecorderView, now: Stamp)
    requires
        v.last_keep_alive is Some,
        now.ms - v.last_keep_alive->Some_0.ms <= KEEP_ALIVE_GAP_MS,
    ensures
        spec_keep_alive(v, now) == (RecorderView { last_keep_alive: Some(now), ..v }),
{
}

/// A run of keep-alives applied in order.
pub open spec fn spec_keep_alive_seq(v: RecorderView, times: Seq<Stamp>) -> RecorderView
    decreases times.len(),
{
    if times.len() == 0 {
        v
    } else {
        spec_keep_alive(spec_keep_alive_seq(v, times.drop_last()), times.last())
    }
}

/// Whether each keep-alive in the run follows its predecessor — the
/// first following `last` — within [`KEEP_ALIVE_GAP_MS`].
pub open spec fn gaps_on_time(last: Stamp, times: Seq<Stamp>) -> bool {
    &&& (times.len() > 0 ==> times[0].ms - last.ms <= KEEP_ALIVE_GAP_MS)
    &&& forall|i: int|
        0 < i < times.len() ==> #[trigger] times[i].ms - times[i - 1].ms <= KEEP_ALIVE_GAP_MS
}

/// A run of timely keep-alives leaves everything but the keep-alive
/// clock untouched.
pub proof fn lemma_keep_alives_on_time(v: RecorderView, times: Seq<Stamp>)
    requires
        v.last_keep_alive is Some,
        gaps_on_time(v.last_keep_alive->Some_0, times),
    ensures
        spec_keep_alive_seq(v, times) == (RecorderView {
            last_keep_alive: if times.len() == 0 {
                v.last_keep_alive
            } else {
                Some(times.last())
            },
            ..v
        }),
    decreases times.len(),
{
    if times.len() > 0 {
        let prefix = times.drop_last();
        assert(gaps_on_time(v.last_keep_alive->Some_0, prefix)) by {
            assert(forall|i: int|
                0 < i < prefix.len() ==> #[trigger] prefix[i].ms == times[i].ms && prefix[i
                    - 1].ms == times[i - 1].ms);
        }
        lemma_keep_alives_on_time(v, prefix);
        let w = spec_keep_alive_seq(v, prefix);
        if times.len() == 1 {
            lemma_keep_alive_on_time(w, times.last());
        } else {
            assert(times.last().ms - times[times.len() - 2].ms <= KEEP_ALIVE_GAP_MS);
            assert(prefix.last() == times[times.len() - 2]);
            lemma_keep_alive_on_time(w, times.last());
        }
    }
}

/// One session, one span: while keep-alives arrive on time, a
/// started session that is stopped produces exactly one finalized
/// span, from the session's start to the stop instant — provided
/// that span passes the minimum-duration filter.
pub proof fn lemma_one_interval_per_session(v: RecorderView, times: Seq<Stamp>, t_end: Stamp)
    requires
        v.current is Some,
        v.last_keep_alive is Some,
        gaps_on_time(v.last_keep_alive->Some_0, times),
        t_end.ms - (if times.len() == 0 {
            v.last_keep_alive->Some_0
        } else {
            times.last()
        }).ms <= KEEP_ALIVE_GAP_MS,
        t_end.ms - v.current->Some_0.start.ms >= v.minimum_ms,
        t_end.ms - v.current->Some_0.start.ms > 0,
    ensures
        ({
            let c = v.current->Some_0;
            let w = spec_stop(spec_keep_alive_seq(v, times), t_end);
            &&& w.buffer == v.buffer.push(
                TimingView { start: c.start, end: t_end, client: c.client, project: c.project },
            )
            &&& w.current is None
        }),
{
    lemma_keep_alives_on_time(v, times);
    let w1 = spec_keep_alive_seq(v, times);
    lemma_keep_alive_on_time(w1, t_end);
}

/// A late keep-alive makes two spans of one session: one ending at
/// the last timely keep-alive, one from the late instant to the
/// stop — provided both pass the minimum-duration filter.
pub proof fn lemma_gap_splits_session(v: RecorderView, late: Stamp, t_end: Stamp)
    requires
        v.current is Some,
        v.last_keep_alive is Some,
        late.ms - v.last_keep_alive->Some_0.ms > KEEP_ALIVE_GAP_MS,
        v.last_keep_alive->Some_0.ms - v.current->Some_0.start.ms >= v.minimum_ms,
        v.last_keep_alive->Some_0.ms - v.current->Some_0.start.ms > 0,
        t_end.ms - late.ms <= KEEP_ALIVE_GAP_MS,
        t_end.ms - late.ms >= v.minimum_ms,
        t_end.ms - late.ms > 0,
    ensures
        ({
            let c = v.current->Some_0;
            let lka = v.last_keep_alive->Some_0;
            let w = spec_stop(spec_keep_alive(v, late), t_end);
            &&& w.buffer == v.buffer.push(
                TimingView { start: c.start, end: lka, client: c.client, project: c.project },
            ).push(TimingView { start: late, end: t_end, client: c.client, project: c.project })
            &&& w.current is None
        }),
{
    let w1 = spec_keep_alive(v, late);
    lemma_keep_alive_on_time(w1, t_end);
}

/// Flushing twice with an unchanged open session updates the
/// persisted row in place: the second flush changes no row count,
/// only the end of the session's row.
pub proof fn lemma_repeated_flush_updates_row(
    st: Seq<TimingView>,
    v: RecorderView,
    t1: Stamp,
    t2: Stamp,
)
    requires
        crate::store::distinct_timing_keys(st),
        v.buffer.len() == 0,
        v.current is Some,
        t1.ms - v.current->Some_0.start.ms >= v.minimum_ms,
        t2.ms - v.current->Some_0.start.ms >= v.minimum_ms,
    ensures
        ({
            let c = v.current->Some_0;
            let key = (c.client, c.project, c.start.ms as int);
            let st1 = spec_upsert_timings(st, spec_timings_to_write(v, t1));
            let st2 = spec_upsert_timings(st1, spec_timings_to_write(v, t2));
            &&& st2.len() == st1.len()
            &&& exists|i: int|
                0 <= i < st1.len() && crate::store::timing_key(#[trigger] st1[i]) == key
                    && st1[i].end == t1 && st2 == st1.update(
                    i,
                    TimingView {
                        start: st1[i].start,
                        end: t2,
                        client: st1[i].client,
                        project: st1[i].project,
                    },
                )
        }),
{
    let c = v.current->Some_0;
    let key = (c.client, c.project, c.start.ms as int);
    let row1 = TimingView { start: c.start, end: t1, client: c.client, project: c.project };
    let row2 = TimingView { start: c.start, end: t2, client: c.client, project: c.project };
    let w1 = spec_timings_to_write(v, t1);
    let w2 = spec_timings_to_write(v, t2);
    assert(w1 == v.buffer.push(row1));
    assert(w2 == v.buffer.push(row2));
    assert(w1.drop_last() =~= v.buffer);
    assert(w2.drop_last() =~= v.buffer);
    assert(v.buffer =~= Seq::<TimingView>::empty());
    let st1 = spec_upsert_timings(st, w1);
    let st2 = spec_upsert_timings(st1, w2);
    assert(w1.len() == 1 && w1.last() == row1);
    assert(w2.len() == 1 && w2.last() == row2);
    assert(spec_upsert_timings(st, w1.drop_last()) == st);
    assert(spec_upsert_timings(st1, w2.drop_last()) == st1);
    assert(st1 == crate::store::spec_upsert_timing(st, row1));
    assert(st2 == crate::store::spec_upsert_timing(st1, row2));
    crate::store::lemma_upsert_timing_properties(st, row1);
    crate::store::lemma_upsert_timing_properties(st1, row2);
    let i1 = choose|i: int|
        0 <= i < st1.len() && crate::store::timing_key(st1[i]) == crate::store::timing_key(row1);
    assert(crate::store::timing_key(st1[i1]) == key);
    assert(st1[i1].end == t1) by {
        if crate::store::has_timing_key(st, key) {
            let i0 = choose|i: int|
                0 <= i < st.len() && crate::store::timing_key(st[i]) == crate::store::timing_key(
                    row1,
                );
            assert(st1 == st.update(
                i0,
                TimingView {
                    start: st[i0].start,
                    end: row1.end,
                    client: st[i0].client,
                    project: st[i0].project,
                },
            ));
            if i1 != i0 {
                assert(st1[i1] == st[i1]);
                assert(crate::store::timing_key(st1[i0]) == key);
            }
        } else {
            assert(st1 == st.push(row1));
            if i1 < st.len() {
                assert(st1[i1] == st[i1]);
                assert(crate::store::timing_key(st1[st.len() as int]) == key);
            }
        }
    }
    let i2 = choose|i: int|
        0 <= i < st1.len() && crate::store::timing_key(st1[i]) == crate::store::timing_key(row2);
    assert(i1 == i2) by {
        assert(crate::store::timing_key(st1[i1]) == crate::store::timing_key(st1[i2]));
    }
    assert(st2 == st1.update(
        i1,
        TimingView { start: st1[i1].start, end: t2, client: st1[i1].client, project: st1[i1].project },
    ));
}

} // verus!
