//! An in-memory model of the persistence collaborator.
//!
//! The real system keeps its ledger in a database behind a narrow
//! query/mutation boundary; this store implements the same boundary
//! over plain vectors, with the semantics the recorder depends on
//! stated exactly: interval writes are upserts keyed by
//! (client, project, start), so a repeated flush of a still-open
//! session updates a row instead of duplicating it, and day notes are
//! upserts keyed by (client, project, day) where an empty note
//! deletes.

use vstd::prelude::*;

use crate::api::DailyTotalSummary;
use crate::api::GetTimingsFilters;
use crate::api::GetTimingsFiltersView;
use crate::api::SummaryAndTotalForDay;
use crate::api::SummaryForDay;
use crate::api::SummaryForDayView;
use crate::api::Timing;
use crate::api::copy_timing;
use crate::api::TimingView;
use crate::assoc::assoc_map;
use crate::assoc::distinct_keys;
use crate::assoc::lemma_assoc_map_contains;
use crate::assoc::lemma_assoc_map_index;
use crate::assoc::lemma_assoc_map_push;
use crate::assoc::lemma_assoc_map_update;
use crate::time::Stamp;
use crate::time::clamped_add;
use crate::time::spec_clamped_add;

verus! {

/// The ledger's state: interval rows and day-note rows.
pub ghost struct TimingStoreView {
    pub timings: Seq<TimingView>,
    pub summaries: Seq<SummaryForDayView>,
}

/// The conflict key of an interval row: client, project, and the
/// start timestamp.
pub open spec fn timing_key(t: TimingView) -> (Seq<char>, Seq<char>, int) {
    (t.client, t.project, t.start.ms as int)
}

/// The conflict key of a day-note row: client, project, and the day.
pub open spec fn summary_key(s: SummaryForDayView) -> (Seq<char>, Seq<char>, int) {
    (s.client, s.project, s.day as int)
}

/// No two interval rows share a conflict key.
pub open spec fn distinct_timing_keys(s: Seq<TimingView>) -> bool {
    forall|i: int, j: int|
        0 <= i < j < s.len() ==> timing_key(s[i]) != timing_key(s[j])
}

/// No two day-note rows share a conflict key.
pub open spec fn distinct_summary_keys(s: Seq<SummaryForDayView>) -> bool {
    forall|i: int, j: int|
        0 <= i < j < s.len() ==> summary_key(s[i]) != summary_key(s[j])
}

/// Every interval row's endpoints lie in the arithmetic range.
pub open spec fn all_timings_valid(s: Seq<TimingView>) -> bool {
    forall|i: int| 0 <= i < s.len() ==> (#[trigger] s[i]).valid()
}

/// One upsert: when a row with the new row's conflict key exists, its
/// end is replaced; otherwise the new row is appended.
pub open spec fn spec_upsert_timing(s: Seq<TimingView>, t: TimingView) -> Seq<TimingView> {
    if exists|i: int| 0 <= i < s.len() && timing_key(s[i]) == timing_key(t) {
        let i = choose|i: int| 0 <= i < s.len() && timing_key(s[i]) == timing_key(t);
        s.update(
            i,
            TimingView { start: s[i].start, end: t.end, client: s[i].client, project: s[i].project },
        )
    } else {
        s.push(t)
    }
}

/// Whether some row carries the key.
pub open spec fn has_timing_key(s: Seq<TimingView>, k: (Seq<char>, Seq<char>, int)) -> bool {
    exists|i: int| 0 <= i < s.len() && timing_key(s[i]) == k
}

/// An upsert keeps conflict keys unique, makes its row's key
/// present, and grows the ledger by a row exactly when the key was
/// new. Rows with other keys stay exactly as they were.
pub proof fn lemma_upsert_timing_properties(s: Seq<TimingView>, t: TimingView)
    requires
        distinct_timing_keys(s),
    ensures
        distinct_timing_keys(spec_upsert_timing(s, t)),
        has_timing_key(spec_upsert_timing(s, t), timing_key(t)),
        spec_upsert_timing(s, t).len() == if has_timing_key(s, timing_key(t)) {
            s.len() as int
        } else {
            s.len() as int + 1
        },
        forall|j: int|
            0 <= j < spec_upsert_timing(s, t).len() ==> timing_key(
                #[trigger] spec_upsert_timing(s, t)[j],
            ) == if j < s.len() {
                timing_key(s[j])
            } else {
                timing_key(t)
            },
{
    let u = spec_upsert_timing(s, t);
    if has_timing_key(s, timing_key(t)) {
        let i = choose|i: int| 0 <= i < s.len() && timing_key(s[i]) == timing_key(t);
        assert(u == s.update(
            i,
            TimingView { start: s[i].start, end: t.end, client: s[i].client, project: s[i].project },
        ));
        assert forall|j: int| 0 <= j < u.len() implies timing_key(u[j]) == timing_key(s[j]) by {
            if j != i {
                assert(u[j] == s[j]);
            }
        }
        assert(timing_key(u[i]) == timing_key(t));
    } else {
        assert(u == s.push(t));
        assert(timing_key(u[s.len() as int]) == timing_key(t));
        assert forall|a: int, b: int|
            0 <= a < b < u.len() implies timing_key(u[a]) != timing_key(u[b]) by {
            if b < s.len() {
                assert(u[a] == s[a] && u[b] == s[b]);
            } else {
                assert(u[a] == s[a] && u[b] == t);
                assert(!(exists|i: int| 0 <= i < s.len() && timing_key(s[i]) == timing_key(t)));
            }
        }
    }
}

/// Upserts a batch of rows, in order.
pub open spec fn spec_upsert_timings(s: Seq<TimingView>, ts: Seq<TimingView>) -> Seq<TimingView>
    decreases ts.len(),
{
    if ts.len() == 0 {
        s
    } else {
        spec_upsert_timing(spec_upsert_timings(s, ts.drop_last()), ts.last())
    }
}

/// The views of a sequence of interval rows.
pub open spec fn timing_views(s: Seq<Timing>) -> Seq<TimingView> {
    s.map_values(|t: Timing| t@)
}

/// The views of a sequence of day-note rows.
pub open spec fn summary_views(s: Seq<SummaryForDay>) -> Seq<SummaryForDayView> {
    s.map_values(|t: SummaryForDay| t@)
}

/// Appending a row appends its view.
pub broadcast proof fn lemma_timing_views_push(s: Seq<Timing>, t: Timing)
    ensures
        #[trigger] timing_views(s.push(t)) == timing_views(s).push(t@),
{
    assert(timing_views(s.push(t)) =~= timing_views(s).push(t@));
}

/// The filters that apply when none are given: no bounds at all.
pub open spec fn filters_or_default(f: Option<GetTimingsFilters>) -> GetTimingsFiltersView {
    match f {
        Some(x) => x@,
        None => GetTimingsFiltersView { from: None, to: None, client: None, project: None },
    }
}

/// Whether an interval row passes the filters: its start lies in the
/// window and its names match those asked for.
pub open spec fn timing_matches(t: TimingView, f: GetTimingsFiltersView) -> bool {
    &&& match f.client {
        Some(c) => t.client == c,
        None => true,
    }
    &&& match f.project {
        Some(p) => t.project == p,
        None => true,
    }
    &&& match f.from {
        Some(from) => t.start.ms >= from.ms,
        None => true,
    }
    &&& match f.to {
        Some(to) => t.start.ms <= to.ms,
        None => true,
    }
}

/// The rows that pass the filters, in stored order.
pub open spec fn spec_filter_timings(s: Seq<TimingView>, f: GetTimingsFiltersView) -> Seq<
    TimingView,
>
    decreases s.len(),
{
    if s.len() == 0 {
        Seq::empty()
    } else {
        let rest = spec_filter_timings(s.drop_last(), f);
        if timing_matches(s.last(), f) {
            rest.push(s.last())
        } else {
            rest
        }
    }
}

/// The view of an optional name filter.
pub open spec fn opt_name_view(o: Option<String>) -> Option<Seq<char>> {
    match o {
        Some(ref s) => Some(s@),
        None => None,
    }
}

/// Whether a day-note row falls in the queried day range and matches
/// the optional names.
pub open spec fn summary_matches(
    v: SummaryForDayView,
    from_day: int,
    to_day: int,
    client: Option<Seq<char>>,
    project: Option<Seq<char>>,
) -> bool {
    &&& from_day <= v.day <= to_day
    &&& match client {
        Some(c) => v.client == c,
        None => true,
    }
    &&& match project {
        Some(p) => v.project == p,
        None => true,
    }
}

/// The day-note rows that pass the query, in stored order.
pub open spec fn spec_filter_summaries(
    s: Seq<SummaryForDayView>,
    from_day: int,
    to_day: int,
    client: Option<Seq<char>>,
    project: Option<Seq<char>>,
) -> Seq<SummaryForDayView>
    decreases s.len(),
{
    if s.len() == 0 {
        Seq::empty()
    } else {
        let rest = spec_filter_summaries(s.drop_last(), from_day, to_day, client, project);
        if summary_matches(s.last(), from_day, to_day, client, project) {
            rest.push(s.last())
        } else {
            rest
        }
    }
}

/// One day-note write: an empty note deletes the row with its key, a
/// non-empty note replaces that row or appends.
pub open spec fn spec_apply_summary(
    s: Seq<SummaryForDayView>,
    v: SummaryForDayView,
) -> Seq<SummaryForDayView> {
    if exists|i: int| 0 <= i < s.len() && summary_key(s[i]) == summary_key(v) {
        let i = choose|i: int| 0 <= i < s.len() && summary_key(s[i]) == summary_key(v);
        if v.summary.len() == 0 {
            s.remove(i)
        } else {
            s.update(i, v)
        }
    } else {
        if v.summary.len() == 0 {
            s
        } else {
            s.push(v)
        }
    }
}

/// Applies a batch of day-note writes, in order.
pub open spec fn spec_apply_summaries(
    s: Seq<SummaryForDayView>,
    vs: Seq<SummaryForDayView>,
) -> Seq<SummaryForDayView>
    decreases vs.len(),
{
    if vs.len() == 0 {
        s
    } else {
        spec_apply_summary(spec_apply_summaries(s, vs.drop_last()), vs.last())
    }
}

/// Whether an interval row counts toward a daily-totals query: its
/// start lies in the millisecond window and its names match the
/// optional filters.
pub open spec fn totals_query_matches(
    t: TimingView,
    from_ms: int,
    to_ms: int,
    client: Option<Seq<char>>,
    project: Option<Seq<char>>,
) -> bool {
    &&& from_ms <= t.start.ms <= to_ms
    &&& match client {
        Some(c) => t.client == c,
        None => true,
    }
    &&& match project {
        Some(p) => t.project == p,
        None => true,
    }
}

/// The aggregation a daily-totals query answers: for every
/// (client, project, local day of start) among the rows that pass
/// the query, the clamped sum of their durations.
pub open spec fn spec_daily_totals(
    s: Seq<TimingView>,
    from_ms: int,
    to_ms: int,
    client: Option<Seq<char>>,
    project: Option<Seq<char>>,
) -> Map<(Seq<char>, Seq<char>, i64), i64>
    decreases s.len(),
{
    if s.len() == 0 {
        Map::empty()
    } else {
        let m = spec_daily_totals(s.drop_last(), from_ms, to_ms, client, project);
        let t = s.last();
        if totals_query_matches(t, from_ms, to_ms, client, project) {
            let key = (t.client, t.project, t.start.day);
            let cur: int = if m.contains_key(key) {
                m[key] as int
            } else {
                0
            };
            m.insert(key, spec_clamped_add(cur, t.duration_ms()) as i64)
        } else {
            m
        }
    }
}

/// The association view of aggregated rows: each row keyed by
/// (client, project, day) with its total.
pub open spec fn totals_rows_assoc(rs: Seq<DailyTotalSummary>) -> Seq<
    ((Seq<char>, Seq<char>, i64), i64),
> {
    rs.map_values(|row: DailyTotalSummary| ((row.client@, row.project@, row.day), row.total_ms))
}

/// Whether an interval row counts toward a daily-totals query.
fn totals_query_matches_exec(
    t: &Timing,
    from_ms: i64,
    to_ms: i64,
    client: &Option<String>,
    project: &Option<String>,
) -> (r: bool)
    ensures
        r == totals_query_matches(
            t@,
            from_ms as int,
            to_ms as int,
            opt_name_view(*client),
            opt_name_view(*project),
        ),
{
    let window_ok = from_ms <= t.start.ms && t.start.ms <= to_ms;
    let client_ok = match client {
        Some(c) => t.client == *c,
        None => true,
    };
    let project_ok = match project {
        Some(p) => t.project == *p,
        None => true,
    };
    window_ok && client_ok && project_ok
}

/// The day-note row a last-wins lookup finds for a key.
pub open spec fn lookup_summary(
    ss: Seq<SummaryForDayView>,
    key: (Seq<char>, Seq<char>, int),
) -> Option<SummaryForDayView>
    decreases ss.len(),
{
    if ss.len() == 0 {
        None
    } else if summary_key(ss.last()) == key {
        Some(ss.last())
    } else {
        lookup_summary(ss.drop_last(), key)
    }
}

/// Folds one interval row into the aggregated rows: the row for its
/// (client, project, day) grows by its duration, or appears.
fn add_total_row(rows: &mut Vec<DailyTotalSummary>, t: &Timing)
    requires
        distinct_keys(totals_rows_assoc(old(rows)@)),
        t@.valid(),
    ensures
        distinct_keys(totals_rows_assoc(final(rows)@)),
        assoc_map(totals_rows_assoc(final(rows)@)) == ({
            let key = (t@.client, t@.project, t@.start.day);
            let m = assoc_map(totals_rows_assoc(old(rows)@));
            let cur: int = if m.contains_key(key) {
                m[key] as int
            } else {
                0
            };
            m.insert(key, spec_clamped_add(cur, t@.duration_ms()) as i64)
        }),
{
    let key_day = t.start.day;
    let duration: i64 = t.end.ms - t.start.ms;
    let n = rows.len();
    let mut j: usize = 0;
    while j < n
        invariant
            0 <= j <= n,
            n == rows@.len(),
            rows@ == old(rows)@,
            t@.valid(),
            duration == t@.duration_ms(),
            key_day == t@.start.day,
            distinct_keys(totals_rows_assoc(rows@)),
            forall|k: int|
                0 <= k < j ==> totals_rows_assoc(rows@)[k].0 != (t@.client, t@.project, t@.start.day),
        decreases n - j,
    {
        let row = &rows[j];
        if row.client == t.client && row.project == t.project && row.day == key_day {
            let ghost s = totals_rows_assoc(rows@);
            proof {
                assert(s[j as int].0 == (t@.client, t@.project, t@.start.day));
                lemma_assoc_map_index(s, j as int);
            }
            let updated = clamped_add(rows[j].total_ms, duration);
            proof {
                lemma_assoc_map_update(s, j as int, updated);
            }
            let e = vstd::std_specs::vec::vec_index_mut(rows, j);
            e.total_ms = updated;
            proof {
                let u = totals_rows_assoc(rows@);
                assert(u =~= s.update(j as int, (s[j as int].0, updated)));
            }
            return ;
        }
        j += 1;
    }
    let ghost s = totals_rows_assoc(rows@);
    let ghost key = (t@.client, t@.project, t@.start.day);
    proof {
        assert(distinct_keys(s));
        assert(forall|k: int| 0 <= k < s.len() ==> s[k].0 != key);
        lemma_assoc_map_contains(s, key);
        lemma_assoc_map_push(s, key, duration);
        assert(spec_clamped_add(0, t@.duration_ms()) == t@.duration_ms());
    }
    rows.push(
        DailyTotalSummary {
            day: key_day,
            total_ms: duration,
            client: t.client.clone(),
            project: t.project.clone(),
        },
    );
    proof {
        let u = totals_rows_assoc(rows@);
        assert(u =~= s.push((key, duration)));
        assert forall|a: int, b: int| 0 <= a < b < u.len() implies u[a].0 != u[b].0 by {
            if b < s.len() {
                assert(u[a] == s[a] && u[b] == s[b]);
                assert(s[a].0 != s[b].0);
            } else {
                assert(u[a] == s[a] && u[b] == (key, duration));
                assert(s[a].0 != key);
            }
        }
    }
}

/// The note text and archive flag a last-wins lookup finds among
/// filtered day-note rows.
fn find_summary(rows: &Vec<SummaryForDay>, client: &String, project: &String, day: i64) -> (r:
    Option<(String, bool)>)
    ensures
        match lookup_summary(summary_views(rows@), (client@, project@, day as int)) {
            Some(v) => r matches Some(x) && x.0@ == v.summary && x.1 == v.archived,
            None => r is None,
        },
{
    let ghost key = (client@, project@, day as int);
    let n = rows.len();
    let mut j: usize = n;
    proof {
        assert(summary_views(rows@).subrange(0, n as int) =~= summary_views(rows@));
    }
    while j > 0
        invariant
            0 <= j <= n,
            n == rows@.len(),
            key == (client@, project@, day as int),
            lookup_summary(summary_views(rows@), key) == lookup_summary(
                summary_views(rows@).subrange(0, j as int),
                key,
            ),
        decreases j,
    {
        j -= 1;
        let row = &rows[j];
        let ghost prefix = summary_views(rows@).subrange(0, j + 1);
        proof {
            assert(prefix.last() == rows@[j as int]@);
            assert(prefix.drop_last() =~= summary_views(rows@).subrange(0, j as int));
        }
        if row.client == *client && row.project == *project && row.day == day {
            proof {
                assert(summary_key(prefix.last()) == key);
            }
            return Some((row.summary.clone(), row.archived));
        }
        proof {
            assert(summary_key(prefix.last()) != key);
        }
    }
    proof {
        assert(summary_views(rows@).subrange(0, 0) =~= Seq::<SummaryForDayView>::empty());
    }
    None
}

/// A field-for-field copy with the same view as the source.
fn copy_summary(v: &SummaryForDay) -> (r: SummaryForDay)
    ensures
        r@ == v@,
{
    SummaryForDay {
        day: v.day,
        project: v.project.clone(),
        client: v.client.clone(),
        summary: v.summary.clone(),
        archived: v.archived,
    }
}

/// Whether an interval row passes the filters.
fn timing_matches_exec(t: &Timing, f: &GetTimingsFilters) -> (r: bool)
    ensures
        r == timing_matches(t@, f@),
{
    let client_ok = match &f.client {
        Some(c) => t.client == *c,
        None => true,
    };
    let project_ok = match &f.project {
        Some(p) => t.project == *p,
        None => true,
    };
    let from_ok = match &f.from {
        Some(from) => t.start.ms >= from.ms,
        None => true,
    };
    let to_ok = match &f.to {
        Some(to) => t.start.ms <= to.ms,
        None => true,
    };
    client_ok && project_ok && from_ok && to_ok
}

/// Whether a day-note row passes the query.
fn summary_matches_exec(
    v: &SummaryForDay,
    from_day: i64,
    to_day: i64,
    client: &Option<String>,
    project: &Option<String>,
) -> (r: bool)
    ensures
        r == summary_matches(
            v@,
            from_day as int,
            to_day as int,
            opt_name_view(*client),
            opt_name_view(*project),
        ),
{
    let range_ok = from_day <= v.day && v.day <= to_day;
    let client_ok = match client {
        Some(c) => v.client == *c,
        None => true,
    };
    let project_ok = match project {
        Some(p) => v.project == *p,
        None => true,
    };
    range_ok && client_ok && project_ok
}

/// The in-memory ledger.
pub struct TimingStore {
    timings: Vec<Timing>,
    summaries: Vec<SummaryForDay>,
}

impl View for TimingStore {
    type V = TimingStoreView;

    closed spec fn view(&self) -> TimingStoreView {
        TimingStoreView {
            timings: timing_views(self.timings@),
            summaries: summary_views(self.summaries@),
        }
    }
}

impl TimingStore {
    /// Conflict keys are unique and every row is in arithmetic range.
    pub open spec fn wf(self) -> bool {
        &&& distinct_timing_keys(self@.timings)
        &&& all_timings_valid(self@.timings)
        &&& distinct_summary_keys(self@.summaries)
    }

    /// An empty ledger.
    pub fn new() -> (r: TimingStore)
        ensures
            r@.timings == Seq::<TimingView>::empty(),
            r@.summaries == Seq::<SummaryForDayView>::empty(),
            r.wf(),
    {
        let r = TimingStore { timings: Vec::new(), summaries: Vec::new() };
        proof {
            assert(r@.timings =~= Seq::<TimingView>::empty());
            assert(r@.summaries =~= Seq::<SummaryForDayView>::empty());
        }
        r
    }

    /// Upserts one interval row.
    fn upsert_timing(&mut self, t: &Timing)
        requires
            old(self).wf(),
            t@.valid(),
        ensures
            final(self)@.timings == spec_upsert_timing(old(self)@.timings, t@),
            final(self)@.summaries == old(self)@.summaries,
            final(self).wf(),
    {
        let n = self.timings.len();
        let mut i: usize = 0;
        while i < n
            invariant
                0 <= i <= n,
                n == self.timings@.len(),
                self.wf(),
                t@.valid(),
                self@ == old(self)@,
                self.timings@ == old(self).timings@,
                self.summaries@ == old(self).summaries@,
                forall|j: int|
                    0 <= j < i ==> timing_key(self@.timings[j]) != timing_key(t@),
            decreases n - i,
        {
            let row = &self.timings[i];
            if row.client == t.client && row.project == t.project && row.start.ms == t.start.ms {
                let ghost s = self@.timings;
                proof {
                    assert(timing_key(s[i as int]) == timing_key(t@));
                    assert(distinct_timing_keys(s));
                    assert(all_timings_valid(s));
                    let w = choose|w: int|
                        0 <= w < s.len() && timing_key(s[w]) == timing_key(t@);
                    assert(w == i as int);
                }
                let e = vstd::std_specs::vec::vec_index_mut(&mut self.timings, i);
                e.end = t.end;
                proof {
                    let u = self@.timings;
                    assert(self.timings@[i as int]@ == TimingView {
                        start: s[i as int].start,
                        end: t@.end,
                        client: s[i as int].client,
                        project: s[i as int].project,
                    });
                    assert(u =~= s.update(
                        i as int,
                        TimingView {
                            start: s[i as int].start,
                            end: t@.end,
                            client: s[i as int].client,
                            project: s[i as int].project,
                        },
                    ));
                    assert(u == spec_upsert_timing(s, t@));
                    assert forall|j: int, k: int|
                        0 <= j < k < u.len() implies timing_key(u[j]) != timing_key(u[k]) by {
                        assert(timing_key(s[j]) != timing_key(s[k]));
                        if j != i {
                            assert(u[j] == s[j]);
                        }
                        if k != i {
                            assert(u[k] == s[k]);
                        }
                        assert(timing_key(u[i as int]) == timing_key(s[i as int]));
                    }
                    assert forall|j: int| 0 <= j < u.len() implies (#[trigger] u[j]).valid() by {
                        assert(s[j].valid());
                        if j != i {
                            assert(u[j] == s[j]);
                        }
                    }
                }
                return ;
            }
            i += 1;
        }
        let ghost s = self@.timings;
        proof {
            assert(distinct_timing_keys(s));
            assert(all_timings_valid(s));
            assert(!(exists|w: int| 0 <= w < s.len() && timing_key(s[w]) == timing_key(t@)));
        }
        let copy = Timing {
            start: t.start,
            end: t.end,
            client: t.client.clone(),
            project: t.project.clone(),
        };
        self.timings.push(copy);
        proof {
            let u = self@.timings;
            assert(u =~= s.push(t@));
            assert(u == spec_upsert_timing(s, t@));
            assert forall|j: int, k: int|
                0 <= j < k < u.len() implies timing_key(u[j]) != timing_key(u[k]) by {
                if k < s.len() {
                    assert(u[j] == s[j] && u[k] == s[k]);
                    assert(timing_key(s[j]) != timing_key(s[k]));
                } else {
                    assert(u[j] == s[j] && u[k] == t@);
                }
            }
            assert forall|j: int| 0 <= j < u.len() implies (#[trigger] u[j]).valid() by {
                if j < s.len() {
                    assert(u[j] == s[j]);
                    assert(s[j].valid());
                }
            }
        }
    }

    /// Writes a batch of interval rows, each an upsert on the
    /// conflict key (client, project, start). Rows already present
    /// keep their place and get the new end; new keys append.
    pub fn insert_timings(&mut self, timings: &Vec<Timing>)
        requires
            old(self).wf(),
            forall|i: int| 0 <= i < timings@.len() ==> (#[trigger] timings@[i])@.valid(),
        ensures
            final(self)@.timings == spec_upsert_timings(
                old(self)@.timings,
                timing_views(timings@),
            ),
            final(self)@.summaries == old(self)@.summaries,
            final(self).wf(),
    {
        let n = timings.len();
        let mut i: usize = 0;
        while i < n
            invariant
                0 <= i <= n,
                n == timings@.len(),
                forall|j: int| 0 <= j < timings@.len() ==> (#[trigger] timings@[j])@.valid(),
                self.wf(),
                self@.timings == spec_upsert_timings(
                    old(self)@.timings,
                    timing_views(timings@.subrange(0, i as int)),
                ),
                self@.summaries == old(self)@.summaries,
            decreases n - i,
        {
            proof {
                let vs = timing_views(timings@.subrange(0, i + 1));
                assert(vs.drop_last() =~= timing_views(timings@.subrange(0, i as int)));
                assert(vs.last() == timings@[i as int]@);
            }
            self.upsert_timing(&timings[i]);
            i += 1;
        }
        proof {
            assert(timings@.subrange(0, n as int) =~= timings@);
        }
    }

    /// The interval rows that pass the filters, in stored order.
    /// Passing no filters returns every row.
    pub fn get_timings(&self, filters: Option<GetTimingsFilters>) -> (r: Vec<Timing>)
        ensures
            timing_views(r@) == spec_filter_timings(self@.timings, filters_or_default(filters)),
    {
        let f = match filters {
            Some(f) => f,
            None => GetTimingsFilters { from: None, to: None, client: None, project: None },
        };
        proof {
            assert(filters_or_default(filters) == f@);
        }
        let mut r: Vec<Timing> = Vec::new();
        let n = self.timings.len();
        let mut i: usize = 0;
        proof {
            assert(timing_views(r@) =~= spec_filter_timings(
                self@.timings.subrange(0, 0),
                f@,
            ));
        }
        while i < n
            invariant
                0 <= i <= n,
                n == self.timings@.len(),
                timing_views(r@) == spec_filter_timings(self@.timings.subrange(0, i as int), f@),
            decreases n - i,
        {
            let ghost prefix = self@.timings.subrange(0, i as int);
            let ghost next = self@.timings.subrange(0, i + 1);
            proof {
                assert(next.drop_last() =~= prefix);
                assert(next.last() == self@.timings[i as int]);
            }
            if timing_matches_exec(&self.timings[i], &f) {
                r.push(copy_timing(&self.timings[i]));
                proof {
                    assert(timing_views(r@) =~= spec_filter_timings(next, f@));
                }
            }
            i += 1;
        }
        proof {
            assert(self@.timings.subrange(0, n as int) =~= self@.timings);
        }
        r
    }

    /// The day-note rows whose day lies in `from_day..=to_day` and
    /// whose names match the optional filters, in stored order.
    pub fn get_timings_daily_summaries(
        &self,
        from_day: i64,
        to_day: i64,
        client: Option<String>,
        project: Option<String>,
    ) -> (r: Vec<SummaryForDay>)
        ensures
            summary_views(r@) == spec_filter_summaries(
                self@.summaries,
                from_day as int,
                to_day as int,
                opt_name_view(client),
                opt_name_view(project),
            ),
    {
        let ghost c = opt_name_view(client);
        let ghost p = opt_name_view(project);
        let mut r: Vec<SummaryForDay> = Vec::new();
        let n = self.summaries.len();
        let mut i: usize = 0;
        proof {
            assert(summary_views(r@) =~= spec_filter_summaries(
                self@.summaries.subrange(0, 0),
                from_day as int,
                to_day as int,
                c,
                p,
            ));
        }
        while i < n
            invariant
                0 <= i <= n,
                n == self.summaries@.len(),
                c == opt_name_view(client),
                p == opt_name_view(project),
                summary_views(r@) == spec_filter_summaries(
                    self@.summaries.subrange(0, i as int),
                    from_day as int,
                    to_day as int,
                    c,
                    p,
                ),
            decreases n - i,
        {
            let ghost prefix = self@.summaries.subrange(0, i as int);
            let ghost next = self@.summaries.subrange(0, i + 1);
            proof {
                assert(next.drop_last() =~= prefix);
                assert(next.last() == self@.summaries[i as int]);
            }
            if summary_matches_exec(&self.summaries[i], from_day, to_day, &client, &project) {
                r.push(copy_summary(&self.summaries[i]));
                proof {
                    assert(summary_views(r@) =~= spec_filter_summaries(
                        next,
                        from_day as int,
                        to_day as int,
                        c,
                        p,
                    ));
                }
            }
            i += 1;
        }
        proof {
            assert(self@.summaries.subrange(0, n as int) =~= self@.summaries);
        }
        r
    }

    /// Applies one day-note write: an empty note deletes the row
    /// with its key, a non-empty note replaces that row or appends.
    fn apply_summary(&mut self, v: &SummaryForDay)
        requires
            old(self).wf(),
        ensures
            final(self)@.summaries == spec_apply_summary(old(self)@.summaries, v@),
            final(self)@.timings == old(self)@.timings,
            final(self).wf(),
    {
        let n = self.summaries.len();
        let mut i: usize = 0;
        while i < n
            invariant
                0 <= i <= n,
                n == self.summaries@.len(),
                self.wf(),
                self@ == old(self)@,
                self.summaries@ == old(self).summaries@,
                self.timings@ == old(self).timings@,
                forall|j: int|
                    0 <= j < i ==> summary_key(self@.summaries[j]) != summary_key(v@),
            decreases n - i,
        {
            let row = &self.summaries[i];
            if row.client == v.client && row.project == v.project && row.day == v.day {
                let ghost s = self@.summaries;
                proof {
                    assert(summary_key(s[i as int]) == summary_key(v@));
                    assert(distinct_summary_keys(s));
                    let w = choose|w: int|
                        0 <= w < s.len() && summary_key(s[w]) == summary_key(v@);
                    assert(w == i as int);
                }
                if v.summary.as_str().is_empty() {
                    self.summaries.remove(i);
                    proof {
                        let u = self@.summaries;
                        assert(u =~= s.remove(i as int));
                        assert(u == spec_apply_summary(s, v@));
                        assert forall|j: int, k: int|
                            0 <= j < k < u.len() implies summary_key(u[j]) != summary_key(
                            u[k],
                        ) by {
                            let j0 = if j < i { j } else { j + 1 };
                            let k0 = if k < i { k } else { k + 1 };
                            assert(u[j] == s[j0] && u[k] == s[k0]);
                            assert(summary_key(s[j0]) != summary_key(s[k0]));
                        }
                    }
                } else {
                    let e = vstd::std_specs::vec::vec_index_mut(&mut self.summaries, i);
                    *e = copy_summary(v);
                    proof {
                        let u = self@.summaries;
                        assert(u =~= s.update(i as int, v@));
                        assert(u == spec_apply_summary(s, v@));
                        assert forall|j: int, k: int|
                            0 <= j < k < u.len() implies summary_key(u[j]) != summary_key(
                            u[k],
                        ) by {
                            assert(summary_key(s[j]) != summary_key(s[k]));
                            if j != i {
                                assert(u[j] == s[j]);
                            }
                            if k != i {
                                assert(u[k] == s[k]);
                            }
                            assert(summary_key(u[i as int]) == summary_key(s[i as int]));
                        }
                    }
                }
                return ;
            }
            i += 1;
        }
        let ghost s = self@.summaries;
        proof {
            assert(distinct_summary_keys(s));
            assert(!(exists|w: int| 0 <= w < s.len() && summary_key(s[w]) == summary_key(v@)));
        }
        if !v.summary.as_str().is_empty() {
            self.summaries.push(copy_summary(v));
            proof {
                let u = self@.summaries;
                assert(u =~= s.push(v@));
                assert(u == spec_apply_summary(s, v@));
                assert forall|j: int, k: int|
                    0 <= j < k < u.len() implies summary_key(u[j]) != summary_key(u[k]) by {
                    if k < s.len() {
                        assert(u[j] == s[j] && u[k] == s[k]);
                        assert(summary_key(s[j]) != summary_key(s[k]));
                    } else {
                        assert(u[j] == s[j] && u[k] == v@);
                    }
                }
            }
        } else {
            proof {
                assert(self@.summaries == spec_apply_summary(s, v@));
            }
        }
    }

    /// Writes a batch of day notes, each an upsert on the key
    /// (client, project, day); an empty note deletes.
    pub fn insert_timings_daily_summaries(&mut self, summaries: &Vec<SummaryForDay>)
        requires
            old(self).wf(),
        ensures
            final(self)@.summaries == spec_apply_summaries(
                old(self)@.summaries,
                summary_views(summaries@),
            ),
            final(self)@.timings == old(self)@.timings,
            final(self).wf(),
    {
        let n = summaries.len();
        let mut i: usize = 0;
        while i < n
            invariant
                0 <= i <= n,
                n == summaries@.len(),
                self.wf(),
                self@.summaries == spec_apply_summaries(
                    old(self)@.summaries,
                    summary_views(summaries@.subrange(0, i as int)),
                ),
                self@.timings == old(self)@.timings,
            decreases n - i,
        {
            proof {
                let vs = summary_views(summaries@.subrange(0, i + 1));
                assert(vs.drop_last() =~= summary_views(summaries@.subrange(0, i as int)));
                assert(vs.last() == summaries@[i as int]@);
            }
            self.apply_summary(&summaries[i]);
            i += 1;
        }
        proof {
            assert(summaries@.subrange(0, n as int) =~= summaries@);
        }
    }

    /// Aggregates the interval rows whose start lies in the window
    /// `[from.ms, to.ms]` and whose names match the optional filters:
    /// one row per (client, project, local day of start), carrying
    /// the clamped sum of their durations. The order of the rows is
    /// not specified.
    pub fn get_timings_daily_totals(
        &self,
        from: Stamp,
        to: Stamp,
        client: Option<String>,
        project: Option<String>,
    ) -> (r: Vec<DailyTotalSummary>)
        requires
            self.wf(),
        ensures
            distinct_keys(totals_rows_assoc(r@)),
            assoc_map(totals_rows_assoc(r@)) == spec_daily_totals(
                self@.timings,
                from.ms as int,
                to.ms as int,
                opt_name_view(client),
                opt_name_view(project),
            ),
    {
        let ghost c = opt_name_view(client);
        let ghost p = opt_name_view(project);
        let mut r: Vec<DailyTotalSummary> = Vec::new();
        let n = self.timings.len();
        let mut i: usize = 0;
        proof {
            assert(totals_rows_assoc(r@) =~= Seq::<((Seq<char>, Seq<char>, i64), i64)>::empty());
            assert(self@.timings.subrange(0, 0) =~= Seq::<TimingView>::empty());
        }
        while i < n
            invariant
                0 <= i <= n,
                n == self.timings@.len(),
                self.wf(),
                c == opt_name_view(client),
                p == opt_name_view(project),
                distinct_keys(totals_rows_assoc(r@)),
                assoc_map(totals_rows_assoc(r@)) == spec_daily_totals(
                    self@.timings.subrange(0, i as int),
                    from.ms as int,
                    to.ms as int,
                    c,
                    p,
                ),
            decreases n - i,
        {
            let ghost prefix = self@.timings.subrange(0, i as int);
            let ghost next = self@.timings.subrange(0, i + 1);
            proof {
                assert(next.drop_last() =~= prefix);
                assert(next.last() == self@.timings[i as int]);
                assert((#[trigger] self@.timings[i as int]).valid());
            }
            let t = &self.timings[i];
            if totals_query_matches_exec(t, from.ms, to.ms, &client, &project) {
                add_total_row(&mut r, t);
            }
            i += 1;
        }
        proof {
            assert(self@.timings.subrange(0, n as int) =~= self@.timings);
        }
        r
    }

    /// Answers the aggregated daily totals joined with the day
    /// notes: for every aggregated (client, project, day) one row
    /// with its total and, when a matching note passed the query,
    /// that note's text and archive flag; otherwise an empty text.
    pub fn get_timings_daily_totals_and_summaries(
        &self,
        from: Stamp,
        to: Stamp,
        client: Option<String>,
        project: Option<String>,
    ) -> (r: Vec<SummaryAndTotalForDay>)
        requires
            self.wf(),
        ensures
            ({
                let tm = spec_daily_totals(
                    self@.timings,
                    from.ms as int,
                    to.ms as int,
                    opt_name_view(client),
                    opt_name_view(project),
                );
                let ss = spec_filter_summaries(
                    self@.summaries,
                    from.day as int,
                    to.day as int,
                    opt_name_view(client),
                    opt_name_view(project),
                );
                let keyed = r@.map_values(
                    |row: SummaryAndTotalForDay| ((row.client@, row.project@, row.day), row.total_ms),
                );
                &&& distinct_keys(keyed)
                &&& assoc_map(keyed) == tm
                &&& forall|i: int|
                    0 <= i < r@.len() ==> {
                        let row = (#[trigger] r@[i])@;
                        match lookup_summary(ss, (row.client, row.project, row.day as int)) {
                            Some(v) => row.summary == v.summary && row.archived == v.archived,
                            None => row.summary.len() == 0 && row.archived == false,
                        }
                    }
            }),
    {
        let client2 = match &client {
            Some(c) => Some(c.clone()),
            None => None,
        };
        let project2 = match &project {
            Some(p) => Some(p.clone()),
            None => None,
        };
        proof {
            assert(opt_name_view(client2) == opt_name_view(client));
            assert(opt_name_view(project2) == opt_name_view(project));
        }
        let totals = self.get_timings_daily_totals(from, to, client2, project2);
        let summaries = self.get_timings_daily_summaries(from.day, to.day, client, project);
        let ghost ss = summary_views(summaries@);
        let mut r: Vec<SummaryAndTotalForDay> = Vec::new();
        let n = totals.len();
        let mut i: usize = 0;
        while i < n
            invariant
                0 <= i <= n,
                n == totals@.len(),
                r@.len() == i,
                ss == summary_views(summaries@),
                forall|j: int|
                    0 <= j < i ==> ({
                        let row = (#[trigger] r@[j])@;
                        let t = totals@[j]@;
                        &&& row.day == t.day
                        &&& row.client == t.client
                        &&& row.project == t.project
                        &&& row.total_ms == t.total_ms
                        &&& match lookup_summary(ss, (row.client, row.project, row.day as int)) {
                            Some(v) => row.summary == v.summary && row.archived == v.archived,
                            None => row.summary.len() == 0 && row.archived == false,
                        }
                    }),
            decreases n - i,
        {
            let t = &totals[i];
            let (summary, archived) = match find_summary(&summaries, &t.client, &t.project, t.day) {
                Some(x) => x,
                None => (String::new(), false),
            };
            r.push(
                SummaryAndTotalForDay {
                    day: t.day,
                    project: t.project.clone(),
                    client: t.client.clone(),
                    summary,
                    archived,
                    total_ms: t.total_ms,
                },
            );
            i += 1;
        }
        proof {
            let keyed = r@.map_values(
                |row: SummaryAndTotalForDay| ((row.client@, row.project@, row.day), row.total_ms),
            );
            assert(keyed =~= totals_rows_assoc(totals@));
        }
        r
    }
}

} // verus!
