//! Per-day totals and rolling-window sums.
//!
//! A [`DailyTotals`] maps local calendar days to accumulated
//! milliseconds of work for one (client, project) pair. Its view is
//! the finite map from day number to total. [`Totals`] is the
//! immutable answer to a rolling-window query: today, this week
//! (Monday through today), the full prior week, and the trailing
//! eight weeks.

use vstd::prelude::*;

use crate::api::DailyTotalSummary;
use crate::api::Timing;
use crate::api::TimingView;
use crate::store::TimingStore;
use crate::store::spec_daily_totals;
use crate::store::totals_rows_assoc;
use crate::assoc::assoc_map;
use crate::assoc::distinct_keys;
use crate::assoc::lemma_assoc_map_contains;
use crate::assoc::lemma_assoc_map_index;
use crate::assoc::lemma_assoc_map_push;
use crate::assoc::lemma_assoc_map_update;
use crate::time::MAX_ABS_DAY;
use crate::time::Stamp;
use crate::time::clamped_add;
use crate::time::spec_clamped_add;
use crate::time::spec_days_from_monday;
use crate::time::days_from_monday;
use crate::time::valid_stamp;

verus! {

/// Accumulated work per local calendar day for one (client, project)
/// pair, in milliseconds.
#[derive(Debug, Clone)]
pub struct DailyTotals {
    entries: Vec<(i64, i64)>,
}

impl View for DailyTotals {
    type V = Map<i64, i64>;

    closed spec fn view(&self) -> Map<i64, i64> {
        assoc_map(self.entries@)
    }
}

/// The total recorded for a day, zero when the day has no bucket.
pub open spec fn bucket_of(m: Map<i64, i64>, day: int) -> int {
    if -0x8000_0000_0000_0000 <= day < 0x8000_0000_0000_0000 && m.contains_key(day as i64) {
        m[day as i64] as int
    } else {
        0
    }
}

/// Sum of the buckets for the days `lo` through `hi` inclusive,
/// accumulated with clamping.
pub open spec fn spec_sum_days(m: Map<i64, i64>, lo: int, hi: int) -> int
    decreases hi + 1 - lo,
{
    if lo > hi {
        0
    } else {
        spec_clamped_add(spec_sum_days(m, lo, hi - 1), bucket_of(m, hi))
    }
}

/// The rolling sums for a queried instant: the bucket for `today`;
/// the days from this week's Monday through today; the full prior
/// Monday-to-Sunday week; and the trailing 57-day window ending
/// today. Weeks start on Monday.
pub open spec fn spec_to_totals(m: Map<i64, i64>, today: int) -> Totals {
    let dfm = spec_days_from_monday(today);
    Totals {
        today: bucket_of(m, today) as i64,
        this_week: spec_sum_days(m, today - dfm, today) as i64,
        last_week: spec_sum_days(m, today - dfm - 7, today - dfm - 1) as i64,
        eight_weeks: spec_sum_days(m, today - 56, today) as i64,
    }
}

impl DailyTotals {
    /// No day occurs twice and no bucket is negative.
    pub closed spec fn wf(self) -> bool {
        &&& distinct_keys(self.entries@)
        &&& forall|i: int| 0 <= i < self.entries@.len() ==> self.entries@[i].1 >= 0
    }

    /// Sum of every bucket, over all days ever recorded.
    pub closed spec fn grand_total(self) -> int {
        sum_values(self.entries@)
    }

    /// A well-formed map holds no negative bucket.
    pub proof fn lemma_wf_nonneg(self, day: i64)
        requires
            self.wf(),
            self@.contains_key(day),
        ensures
            self@[day] >= 0,
    {
        lemma_assoc_map_contains(self.entries@, day);
        let i = choose|i: int|
            0 <= i < self.entries@.len() && self.entries@[i].0 == day;
        lemma_assoc_map_index(self.entries@, i);
    }

    pub fn new() -> (r: DailyTotals)
        ensures
            r@ == Map::<i64, i64>::empty(),
            r.wf(),
            r.grand_total() == 0,
    {
        DailyTotals { entries: Vec::new() }
    }

    /// The bucket for a day, or `None` when the day has none.
    pub fn get(&self, date: i64) -> (r: Option<i64>)
        requires
            self.wf(),
        ensures
            r == if self@.contains_key(date) {
                Some(self@[date])
            } else {
                None::<i64>
            },
    {
        let n = self.entries.len();
        let mut i: usize = 0;
        while i < n
            invariant
                0 <= i <= n,
                n == self.entries@.len(),
                self.wf(),
                forall|j: int| 0 <= j < i ==> self.entries@[j].0 != date,
            decreases n - i,
        {
            if self.entries[i].0 == date {
                proof {
                    lemma_assoc_map_index(self.entries@, i as int);
                }
                return Some(self.entries[i].1);
            }
            i += 1;
        }
        proof {
            lemma_assoc_map_contains(self.entries@, date);
        }
        None
    }

    /// Sets the bucket for a day outright, replacing any present
    /// value.
    pub fn insert(&mut self, date: i64, duration_ms: i64)
        requires
            old(self).wf(),
            duration_ms >= 0,
        ensures
            final(self)@ == old(self)@.insert(date, duration_ms),
            final(self).wf(),
    {
        let n = self.entries.len();
        let mut i: usize = 0;
        while i < n
            invariant
                0 <= i <= n,
                n == self.entries@.len(),
                self.wf(),
                self@ == old(self)@,
                self.entries@ == old(self).entries@,
                duration_ms >= 0,
                forall|j: int| 0 <= j < i ==> self.entries@[j].0 != date,
            decreases n - i,
        {
            if self.entries[i].0 == date {
                proof {
                    lemma_assoc_map_update(self.entries@, i as int, duration_ms);
                }
                let ghost s = self.entries@;
                proof {
                    assert(forall|j: int| 0 <= j < s.len() ==> s[j].1 >= 0);
                }
                let e = vstd::std_specs::vec::vec_index_mut(&mut self.entries, i);
                *e = (date, duration_ms);
                proof {
                    let t = self.entries@;
                    assert(t == s.update(i as int, (date, duration_ms)));
                    assert(t =~= s.update(i as int, (s[i as int].0, duration_ms)));
                    assert forall|j: int| 0 <= j < t.len() implies t[j].1 >= 0 by {
                        if j != i {
                            assert(t[j] == s[j]);
                            assert(s[j].1 >= 0);
                        } else {
                            assert(t[j].1 == duration_ms);
                        }
                    }
                }
                return ;
            }
            i += 1;
        }
        let ghost s = self.entries@;
        proof {
            assert(forall|j: int| 0 <= j < s.len() ==> s[j].1 >= 0);
            assert(distinct_keys(s));
            lemma_assoc_map_push(s, date, duration_ms);
        }
        self.entries.push((date, duration_ms));
        proof {
            let t = self.entries@;
            assert(t == s.push((date, duration_ms)));
            assert forall|j: int| 0 <= j < t.len() implies t[j].1 >= 0 by {
                if j < s.len() {
                    assert(t[j] == s[j]);
                    assert(s[j].1 >= 0);
                }
            }
            assert forall|j: int, k: int| 0 <= j < k < t.len() implies t[j].0 != t[k].0 by {
                if k < s.len() {
                    assert(t[j] == s[j] && t[k] == s[k]);
                    assert(s[j].0 != s[k].0);
                } else {
                    assert(t[j] == s[j] && t[k].0 == date);
                }
            }
        }
    }

    /// Adds a finished span into the bucket of the local day its
    /// start fell on. The bucket grows by the span's duration,
    /// clamping if it cannot fit.
    pub fn insert_timing(&mut self, start: Stamp, end: Stamp)
        requires
            old(self).wf(),
            valid_stamp(start),
            valid_stamp(end),
            end.ms >= start.ms,
        ensures
            final(self)@ == old(self)@.insert(
                start.day,
                spec_clamped_add(bucket_of(old(self)@, start.day as int), end.ms - start.ms) as i64,
            ),
            final(self).wf(),
            final(self).grand_total() == spec_clamped_add(
                bucket_of(old(self)@, start.day as int),
                end.ms - start.ms,
            ) - bucket_of(old(self)@, start.day as int) + old(self).grand_total(),
    {
        let duration: i64 = end.ms - start.ms;
        let n = self.entries.len();
        let mut i: usize = 0;
        while i < n
            invariant
                0 <= i <= n,
                n == self.entries@.len(),
                self.wf(),
                self@ == old(self)@,
                self.entries@ == old(self).entries@,
                valid_stamp(start),
                valid_stamp(end),
                end.ms >= start.ms,
                duration == end.ms - start.ms,
                forall|j: int| 0 <= j < i ==> self.entries@[j].0 != start.day,
            decreases n - i,
        {
            if self.entries[i].0 == start.day {
                let updated = clamped_add(self.entries[i].1, duration);
                let ghost s = self.entries@;
                proof {
                    assert(forall|j: int| 0 <= j < s.len() ==> s[j].1 >= 0);
                    lemma_assoc_map_index(s, i as int);
                    lemma_assoc_map_update(s, i as int, updated);
                    lemma_sum_values_update(s, i as int, updated);
                }
                let e = vstd::std_specs::vec::vec_index_mut(&mut self.entries, i);
                *e = (start.day, updated);
                proof {
                    let t = self.entries@;
                    assert(t == s.update(i as int, (start.day, updated)));
                    assert(t =~= s.update(i as int, (s[i as int].0, updated)));
                    assert forall|j: int| 0 <= j < t.len() implies t[j].1 >= 0 by {
                        if j != i {
                            assert(t[j] == s[j]);
                            assert(s[j].1 >= 0);
                        } else {
                            assert(t[j].1 == updated);
                        }
                    }
                }
                return ;
            }
            i += 1;
        }
        let ghost s = self.entries@;
        proof {
            assert(forall|j: int| 0 <= j < s.len() ==> s[j].1 >= 0);
            assert(distinct_keys(s));
            lemma_assoc_map_contains(s, start.day);
            lemma_assoc_map_push(s, start.day, duration);
            lemma_sum_values_push(s, start.day, duration);
        }
        self.entries.push((start.day, duration));
        proof {
            let t = self.entries@;
            assert(t == s.push((start.day, duration)));
            assert forall|j: int| 0 <= j < t.len() implies t[j].1 >= 0 by {
                if j < s.len() {
                    assert(t[j] == s[j]);
                    assert(s[j].1 >= 0);
                }
            }
            assert forall|j: int, k: int| 0 <= j < k < t.len() implies t[j].0 != t[k].0 by {
                if k < s.len() {
                    assert(t[j] == s[j] && t[k] == s[k]);
                    assert(s[j].0 != s[k].0);
                } else {
                    assert(t[j] == s[j] && t[k].0 == start.day);
                }
            }
        }
    }

    /// Rebuilds the per-day index from rows the persistence
    /// collaborator reported. Later rows win over earlier rows for
    /// the same day; a negative reported total is treated as zero.
    pub fn from_rows(rows: &Vec<DailyTotalSummary>) -> (r: DailyTotals)
        ensures
            r@ == spec_rows_map(rows@.map_values(|row: DailyTotalSummary| row@)),
            r.wf(),
    {
        let ghost rowviews = rows@.map_values(|row: DailyTotalSummary| row@);
        let mut totals = DailyTotals::new();
        let n = rows.len();
        let mut i: usize = 0;
        while i < n
            invariant
                0 <= i <= n,
                n == rows@.len(),
                rowviews == rows@.map_values(|row: DailyTotalSummary| row@),
                totals.wf(),
                totals@ == spec_rows_map(rowviews.subrange(0, i as int)),
            decreases n - i,
        {
            let row = &rows[i];
            let value: i64 = if row.total_ms >= 0 {
                row.total_ms
            } else {
                0
            };
            totals.insert(row.day, value);
            proof {
                assert(rowviews.subrange(0, i + 1).drop_last() =~= rowviews.subrange(
                    0,
                    i as int,
                ));
            }
            i += 1;
        }
        proof {
            assert(rowviews.subrange(0, n as int) =~= rowviews);
        }
        totals
    }

    /// Rebuilds the per-day index from raw spans, as a full scan of
    /// the ledger would. The grand total of the result is exactly the
    /// sum of the spans' durations, as long as that sum fits; this is
    /// the round-trip law tying a rebuild to the incremental updates
    /// of `insert_timing`.
    pub fn from_timings(timings: &Vec<(Stamp, Stamp)>) -> (r: DailyTotals)
        requires
            forall|i: int|
                0 <= i < timings@.len() ==> #[trigger] valid_stamp(timings@[i].0)
                    && valid_stamp(timings@[i].1) && timings@[i].1.ms >= timings@[i].0.ms,
        ensures
            r@ == spec_timings_map(timings@),
            r.wf(),
            sum_durations(timings@) <= i64::MAX ==> r.grand_total() == sum_durations(timings@),
    {
        let mut totals = DailyTotals::new();
        let n = timings.len();
        let mut i: usize = 0;
        while i < n
            invariant
                0 <= i <= n,
                n == timings@.len(),
                forall|j: int|
                    0 <= j < timings@.len() ==> #[trigger] valid_stamp(timings@[j].0)
                        && valid_stamp(timings@[j].1) && timings@[j].1.ms >= timings@[j].0.ms,
                totals.wf(),
                totals@ == spec_timings_map(timings@.subrange(0, i as int)),
                totals.grand_total() >= 0,
                sum_durations(timings@.subrange(0, i as int)) <= i64::MAX ==> totals.grand_total()
                    == sum_durations(timings@.subrange(0, i as int)),
                totals.grand_total() <= sum_durations(timings@.subrange(0, i as int)),
            decreases n - i,
        {
            let (start, end) = timings[i];
            proof {
                assert(valid_stamp(timings@[i as int].0));
                assert(start == timings@[i as int].0 && end == timings@[i as int].1);
                totals.lemma_grand_total_nonneg();
                if totals@.contains_key(start.day) {
                    totals.lemma_wf_nonneg(start.day);
                    totals.lemma_bucket_le_grand_total(start.day);
                }
                assert(timings@.subrange(0, i + 1).drop_last() =~= timings@.subrange(
                    0,
                    i as int,
                ));
                assert(timings@.subrange(0, i + 1).last() == timings@[i as int]);
            }
            totals.insert_timing(start, end);
            i += 1;
        }
        proof {
            assert(timings@.subrange(0, n as int) =~= timings@);
        }
        totals
    }

    /// The grand total is never negative.
    pub proof fn lemma_grand_total_nonneg(self)
        requires
            self.wf(),
        ensures
            self.grand_total() >= 0,
    {
        lemma_sum_values_nonneg(self.entries@);
    }

    /// No single bucket exceeds the grand total.
    pub proof fn lemma_bucket_le_grand_total(self, day: i64)
        requires
            self.wf(),
            self@.contains_key(day),
        ensures
            self@[day] <= self.grand_total(),
    {
        lemma_assoc_map_contains(self.entries@, day);
        let i = choose|i: int|
            0 <= i < self.entries@.len() && self.entries@[i].0 == day;
        lemma_assoc_map_index(self.entries@, i);
        lemma_sum_values_bound(self.entries@, i);
    }

    /// Answers a rolling-window query for the instant `now`. The
    /// window boundaries come from `now`'s local calendar day.
    pub fn to_totals(&self, now: Stamp) -> (r: Totals)
        requires
            self.wf(),
            valid_stamp(now),
        ensures
            r == spec_to_totals(self@, now.day as int),
            r.today >= 0,
            r.this_week >= 0,
            r.last_week >= 0,
            r.eight_weeks >= 0,
    {
        let today: i64 = now.day;
        let day_total: i64 = match self.get(today) {
            Some(d) => d,
            None => 0,
        };
        proof {
            if self@.contains_key(today) {
                self.lemma_wf_nonneg(today);
            }
        }
        let dfm: i64 = days_from_monday(today);
        let this_week_start: i64 = today - dfm;
        let last_week_start: i64 = this_week_start - 7;
        let last_week_end: i64 = this_week_start - 1;
        let eight_weeks_start: i64 = today - 56;

        let this_week_total = self.sum_days(this_week_start, today);
        let last_week_total = self.sum_days(last_week_start, last_week_end);
        let eight_weeks_total = self.sum_days(eight_weeks_start, today);

        Totals {
            today: day_total,
            this_week: this_week_total,
            last_week: last_week_total,
            eight_weeks: eight_weeks_total,
        }
    }

    /// Sum of the buckets for the days `lo` through `hi` inclusive.
    fn sum_days(&self, lo: i64, hi: i64) -> (r: i64)
        requires
            self.wf(),
            -MAX_ABS_DAY - 63 <= lo <= MAX_ABS_DAY + 63,
            -MAX_ABS_DAY - 63 <= hi <= MAX_ABS_DAY + 63,
        ensures
            r == spec_sum_days(self@, lo as int, hi as int),
            r >= 0,
    {
        let mut total: i64 = 0;
        let mut d: i64 = lo;
        while d <= hi
            invariant
                self.wf(),
                lo <= d <= hi + 1 || (d == lo && lo > hi),
                -MAX_ABS_DAY - 63 <= lo,
                hi <= MAX_ABS_DAY + 63,
                total == spec_sum_days(self@, lo as int, d - 1),
                total >= 0,
            decreases hi - d + 1,
        {
            let b: i64 = match self.get(d) {
                Some(v) => v,
                None => 0,
            };
            proof {
                if self@.contains_key(d) {
                    self.lemma_wf_nonneg(d);
                }
            }
            total = clamped_add(total, b);
            d += 1;
        }
        total
    }
}

/// Sum of the values of an association sequence.
pub open spec fn sum_values(s: Seq<(i64, i64)>) -> int
    decreases s.len(),
{
    if s.len() == 0 {
        0
    } else {
        sum_values(s.drop_last()) + s.last().1
    }
}

proof fn lemma_sum_values_nonneg(s: Seq<(i64, i64)>)
    requires
        forall|i: int| 0 <= i < s.len() ==> s[i].1 >= 0,
    ensures
        sum_values(s) >= 0,
    decreases s.len(),
{
    if s.len() > 0 {
        lemma_sum_values_nonneg(s.drop_last());
    }
}

proof fn lemma_sum_values_bound(s: Seq<(i64, i64)>, i: int)
    requires
        forall|j: int| 0 <= j < s.len() ==> s[j].1 >= 0,
        0 <= i < s.len(),
    ensures
        s[i].1 <= sum_values(s),
    decreases s.len(),
{
    if i == s.len() - 1 {
        lemma_sum_values_nonneg(s.drop_last());
    } else {
        lemma_sum_values_bound(s.drop_last(), i);
    }
}

proof fn lemma_sum_values_update(s: Seq<(i64, i64)>, i: int, v: i64)
    requires
        0 <= i < s.len(),
    ensures
        sum_values(s.update(i, (s[i].0, v))) == sum_values(s) - s[i].1 + v,
    decreases s.len(),
{
    let t = s.update(i, (s[i].0, v));
    if i == s.len() - 1 {
        assert(t.drop_last() =~= s.drop_last());
    } else {
        assert(t.drop_last() =~= s.drop_last().update(i, (s[i].0, v)));
        lemma_sum_values_update(s.drop_last(), i, v);
        assert(t.last() == s.last());
    }
}

proof fn lemma_sum_values_push(s: Seq<(i64, i64)>, k: i64, v: i64)
    ensures
        sum_values(s.push((k, v))) == sum_values(s) + v,
{
    assert(s.push((k, v)).drop_last() =~= s);
    assert(s.push((k, v)).last() == (k, v));
}

/// The per-day map described by reported rows: later rows win, and a
/// negative reported total counts as zero.
pub open spec fn spec_rows_map(rows: Seq<crate::api::DailyTotalSummaryView>) -> Map<i64, i64>
    decreases rows.len(),
{
    if rows.len() == 0 {
        Map::empty()
    } else {
        spec_rows_map(rows.drop_last()).insert(
            rows.last().day,
            if rows.last().total_ms >= 0 {
                rows.last().total_ms
            } else {
                0
            },
        )
    }
}

/// The per-day map built by adding raw spans one after the other.
pub open spec fn spec_timings_map(timings: Seq<(Stamp, Stamp)>) -> Map<i64, i64>
    decreases timings.len(),
{
    if timings.len() == 0 {
        Map::empty()
    } else {
        let m = spec_timings_map(timings.drop_last());
        let start = timings.last().0;
        let end = timings.last().1;
        m.insert(
            start.day,
            spec_clamped_add(bucket_of(m, start.day as int), end.ms - start.ms) as i64,
        )
    }
}

/// Sum of the durations of raw spans.
pub open spec fn sum_durations(timings: Seq<(Stamp, Stamp)>) -> int
    decreases timings.len(),
{
    if timings.len() == 0 {
        0
    } else {
        sum_durations(timings.drop_last()) + (timings.last().1.ms - timings.last().0.ms)
    }
}

/// The answer to a rolling-window query, in milliseconds. Derived
/// fresh on every call and never persisted.
#[derive(Clone, Copy, Debug, PartialEq, Eq, Structural)]
pub struct Totals {
    pub today: i64,
    pub this_week: i64,
    pub last_week: i64,
    pub eight_weeks: i64,
}

/// A snapshot extended with the elapsed time of a still-open
/// session: it joins today, this week and the eight-week window, but
/// never the prior week, which an open session cannot reach.
pub open spec fn spec_with_current(t: Totals, start: Stamp, now: Stamp) -> Totals {
    Totals {
        today: spec_clamped_add(t.today as int, now.ms - start.ms) as i64,
        this_week: spec_clamped_add(t.this_week as int, now.ms - start.ms) as i64,
        last_week: t.last_week,
        eight_weeks: spec_clamped_add(t.eight_weeks as int, now.ms - start.ms) as i64,
    }
}

impl Totals {
    /// Extends a snapshot with the still-open session: its elapsed
    /// time joins today, this week and the eight-week window, but
    /// never the prior week, which an open session cannot reach.
    pub fn with_current_timing(&self, start: Stamp, now: Stamp) -> (r: Totals)
        requires
            valid_stamp(start),
            valid_stamp(now),
        ensures
            r == spec_with_current(*self, start, now),
    {
        let duration: i64 = now.ms - start.ms;
        Totals {
            today: clamped_add(self.today, duration),
            this_week: clamped_add(self.this_week, duration),
            last_week: self.last_week,
            eight_weeks: clamped_add(self.eight_weeks, duration),
        }
    }

    /// The field-wise sum of two snapshots, clamped like every
    /// other accumulation.
    pub fn plus(&self, other: &Totals) -> (r: Totals)
        ensures
            r.today == spec_clamped_add(self.today as int, other.today as int),
            r.this_week == spec_clamped_add(self.this_week as int, other.this_week as int),
            r.last_week == spec_clamped_add(self.last_week as int, other.last_week as int),
            r.eight_weeks == spec_clamped_add(self.eight_weeks as int, other.eight_weeks as int),
    {
        Totals {
            today: clamped_add(self.today, other.today),
            this_week: clamped_add(self.this_week, other.this_week),
            last_week: clamped_add(self.last_week, other.last_week),
            eight_weeks: clamped_add(self.eight_weeks, other.eight_weeks),
        }
    }
}

/// The width of the cold-fill window: eight weeks of milliseconds.
pub const EIGHT_WEEKS_MS: i64 = 4_838_400_000;

/// The per-day totals of one (client, project) pair inside an
/// aggregated map, with a negative reported total treated as zero.
pub open spec fn day_slice(
    m: Map<(Seq<char>, Seq<char>, i64), i64>,
    c: Seq<char>,
    p: Seq<char>,
) -> Map<i64, i64> {
    Map::new(
        |d: i64| m.contains_key((c, p, d)),
        |d: i64|
            if m[(c, p, d)] >= 0 {
                m[(c, p, d)]
            } else {
                0
            },
    )
}

/// A daily-totals query filtered to one client and project yields
/// only keys of that client and project.
pub proof fn lemma_daily_totals_keys(
    s: Seq<TimingView>,
    from_ms: int,
    to_ms: int,
    c: Seq<char>,
    p: Seq<char>,
)
    ensures
        forall|key: (Seq<char>, Seq<char>, i64)|
            #[trigger] spec_daily_totals(s, from_ms, to_ms, Some(c), Some(p)).contains_key(key)
                ==> key.0 == c && key.1 == p,
    decreases s.len(),
{
    if s.len() > 0 {
        lemma_daily_totals_keys(s.drop_last(), from_ms, to_ms, c, p);
        let m1 = spec_daily_totals(s.drop_last(), from_ms, to_ms, Some(c), Some(p));
        let m = spec_daily_totals(s, from_ms, to_ms, Some(c), Some(p));
        assert forall|key: (Seq<char>, Seq<char>, i64)| #[trigger] m.contains_key(key) implies key.0
            == c && key.1 == p by {
            let t = s.last();
            if crate::store::totals_query_matches(t, from_ms, to_ms, Some(c), Some(p)) {
                if key != (t.client, t.project, t.start.day) {
                    assert(m1.contains_key(key));
                }
            } else {
                assert(m == m1);
                assert(m1.contains_key(key));
            }
        }
    }
}

/// Rebuilding per-day totals from reported rows gives exactly the
/// one-pair slice of the aggregation the rows came from.
pub proof fn lemma_rows_map_is_day_slice(rows: Seq<DailyTotalSummary>, c: Seq<char>, p: Seq<char>)
    requires
        forall|i: int|
            0 <= i < rows.len() ==> (#[trigger] rows[i])@.client == c && rows[i]@.project == p,
    ensures
        spec_rows_map(rows.map_values(|row: DailyTotalSummary| row@)) == day_slice(
            assoc_map(totals_rows_assoc(rows)),
            c,
            p,
        ),
    decreases rows.len(),
{
    if rows.len() == 0 {
        assert(spec_rows_map(rows.map_values(|row: DailyTotalSummary| row@)) =~= day_slice(
            assoc_map(totals_rows_assoc(rows)),
            c,
            p,
        ));
    } else {
        let r1 = rows.drop_last();
        assert(forall|i: int| 0 <= i < r1.len() ==> r1[i] == rows[i]);
        lemma_rows_map_is_day_slice(r1, c, p);
        let row = rows.last()@;
        assert(rows.map_values(|x: DailyTotalSummary| x@).drop_last() =~= r1.map_values(
            |x: DailyTotalSummary| x@,
        ));
        assert(rows.map_values(|x: DailyTotalSummary| x@).last() == row);
        assert(totals_rows_assoc(rows).drop_last() =~= totals_rows_assoc(r1));
        assert(totals_rows_assoc(rows).last() == ((row.client, row.project, row.day), row.total_ms));
        assert(row.client == c && row.project == p);
        let m1 = assoc_map(totals_rows_assoc(r1));
        assert(day_slice(m1.insert((c, p, row.day), row.total_ms), c, p) =~= day_slice(
            m1,
            c,
            p,
        ).insert(
            row.day,
            if row.total_ms >= 0 {
                row.total_ms
            } else {
                0
            },
        ));
    }
}

/// The rolling sums are a pure function of the per-day map and the
/// queried day: two indexes that describe the same map answer every
/// query identically, whatever their internal layout, so
/// recomputing from the same inputs always yields the same answer.
pub proof fn lemma_to_totals_pure(a: DailyTotals, b: DailyTotals, now: Stamp)
    requires
        a@ == b@,
    ensures
        spec_to_totals(a@, now.day as int) == spec_to_totals(b@, now.day as int),
{
}

/// The association view of the cache's entries.
pub open spec fn cache_assoc(s: Seq<((String, String), DailyTotals)>) -> Seq<
    ((Seq<char>, Seq<char>), Map<i64, i64>),
> {
    s.map_values(|e: ((String, String), DailyTotals)| ((e.0.0@, e.0.1@), e.1@))
}

/// The read-through cache of per-day totals, one [`DailyTotals`] per
/// (client, project) pair. Absence of a pair means cold, not zero: a
/// cold pair must be filled from the ledger before being trusted,
/// and incremental updates touch warm pairs only. Entries are never
/// evicted; the cache grows with the number of distinct pairs seen.
pub(crate) struct TotalsCache {
    totals: Vec<((String, String), DailyTotals)>,
}

impl View for TotalsCache {
    type V = Map<(Seq<char>, Seq<char>), Map<i64, i64>>;

    closed spec fn view(&self) -> Map<(Seq<char>, Seq<char>), Map<i64, i64>> {
        assoc_map(cache_assoc(self.totals@))
    }
}

impl TotalsCache {
    /// No pair occurs twice and every held index is well-formed.
    pub closed spec fn wf(self) -> bool {
        &&& distinct_keys(cache_assoc(self.totals@))
        &&& forall|i: int| 0 <= i < self.totals@.len() ==> (#[trigger] self.totals@[i]).1.wf()
    }

    pub fn new() -> (r: TotalsCache)
        ensures
            r@ == Map::<(Seq<char>, Seq<char>), Map<i64, i64>>::empty(),
            r.wf(),
    {
        let r = TotalsCache { totals: Vec::new() };
        proof {
            assert(cache_assoc(r.totals@) =~= Seq::<
                ((Seq<char>, Seq<char>), Map<i64, i64>),
            >::empty());
        }
        r
    }

    /// Whether the pair is warm.
    pub fn has_cached_totals(&self, client: &str, project: &str) -> (r: bool)
        requires
            self.wf(),
        ensures
            r == self@.contains_key((client@, project@)),
    {
        let ck = String::from_str(client);
        let pk = String::from_str(project);
        let n = self.totals.len();
        let mut i: usize = 0;
        while i < n
            invariant
                0 <= i <= n,
                n == self.totals@.len(),
                self.wf(),
                ck@ == client@,
                pk@ == project@,
                forall|j: int|
                    0 <= j < i ==> cache_assoc(self.totals@)[j].0 != (client@, project@),
            decreases n - i,
        {
            if self.totals[i].0.0 == ck && self.totals[i].0.1 == pk {
                proof {
                    lemma_assoc_map_index(cache_assoc(self.totals@), i as int);
                }
                return true;
            }
            i += 1;
        }
        proof {
            lemma_assoc_map_contains(cache_assoc(self.totals@), (client@, project@));
        }
        false
    }

    /// Where the pair's entry sits, when it is warm.
    fn find(&self, client: &str, project: &str) -> (r: Option<usize>)
        requires
            self.wf(),
        ensures
            match r {
                Some(i) => {
                    &&& i < self.totals@.len()
                    &&& self@.contains_key((client@, project@))
                    &&& self@[(client@, project@)] == self.totals@[i as int].1@
                    &&& self.totals@[i as int].1.wf()
                },
                None => !self@.contains_key((client@, project@)),
            },
    {
        let ck = String::from_str(client);
        let pk = String::from_str(project);
        let n = self.totals.len();
        let mut i: usize = 0;
        while i < n
            invariant
                0 <= i <= n,
                n == self.totals@.len(),
                self.wf(),
                ck@ == client@,
                pk@ == project@,
                forall|j: int|
                    0 <= j < i ==> cache_assoc(self.totals@)[j].0 != (client@, project@),
            decreases n - i,
        {
            if self.totals[i].0.0 == ck && self.totals[i].0.1 == pk {
                proof {
                    lemma_assoc_map_index(cache_assoc(self.totals@), i as int);
                    assert((#[trigger] self.totals@[i as int]).1.wf());
                }
                return Some(i);
            }
            i += 1;
        }
        proof {
            lemma_assoc_map_contains(cache_assoc(self.totals@), (client@, project@));
        }
        None
    }

    /// Folds a finished span into the cache. Only a warm pair is
    /// touched: its bucket for the span's start day grows by the
    /// span's duration. A cold pair stays cold — the cache never
    /// self-populates from one incremental update.
    pub fn add_timing(&mut self, timing: &Timing)
        requires
            old(self).wf(),
            timing@.valid(),
            timing@.end.ms >= timing@.start.ms,
        ensures
            final(self)@ == spec_cache_add(old(self)@, timing@),
            final(self).wf(),
    {
        let n = self.totals.len();
        let mut i: usize = 0;
        while i < n
            invariant
                0 <= i <= n,
                n == self.totals@.len(),
                self.wf(),
                self@ == old(self)@,
                self.totals@ == old(self).totals@,
                timing@.valid(),
                timing@.end.ms >= timing@.start.ms,
                forall|j: int|
                    0 <= j < i ==> cache_assoc(self.totals@)[j].0 != (timing@.client, timing@.project),
            decreases n - i,
        {
            if self.totals[i].0.0 == timing.client && self.totals[i].0.1 == timing.project {
                let ghost s = cache_assoc(self.totals@);
                let ghost oldmap = self.totals@[i as int].1@;
                proof {
                    assert(s[i as int].0 == (timing@.client, timing@.project));
                    lemma_assoc_map_index(s, i as int);
                    assert((#[trigger] self.totals@[i as int]).1.wf());
                    assert(forall|j: int|
                        0 <= j < self.totals@.len() ==> (#[trigger] self.totals@[j]).1.wf());
                }
                let ghost entries_before = self.totals@;
                let e = vstd::std_specs::vec::vec_index_mut(&mut self.totals, i);
                e.1.insert_timing(timing.start, timing.end);
                proof {
                    let newmap = oldmap.insert(
                        timing@.start.day,
                        spec_clamped_add(
                            bucket_of(oldmap, timing@.start.day as int),
                            timing@.duration_ms(),
                        ) as i64,
                    );
                    let u = cache_assoc(self.totals@);
                    assert(self.totals@[i as int].1@ == newmap);
                    assert(self.totals@[i as int].0 == entries_before[i as int].0);
                    assert(u =~= s.update(i as int, (s[i as int].0, newmap)));
                    lemma_assoc_map_update(s, i as int, newmap);
                    assert forall|j: int|
                        0 <= j < self.totals@.len() implies (#[trigger] self.totals@[j]).1.wf() by {
                        if j != i {
                            assert(self.totals@[j] == entries_before[j]);
                            assert(entries_before[j].1.wf());
                        }
                    }
                }
                return ;
            }
            i += 1;
        }
        proof {
            lemma_assoc_map_contains(cache_assoc(self.totals@), (timing@.client, timing@.project));
        }
    }

    /// Installs a freshly rebuilt per-day index for a cold pair.
    pub fn install(&mut self, client: &str, project: &str, totals: DailyTotals)
        requires
            old(self).wf(),
            totals.wf(),
            !old(self)@.contains_key((client@, project@)),
        ensures
            final(self)@ == old(self)@.insert((client@, project@), totals@),
            final(self).wf(),
    {
        let ghost s = cache_assoc(self.totals@);
        let ghost key = (client@, project@);
        let ghost tv = totals@;
        proof {
            lemma_assoc_map_contains(s, key);
            assert(forall|k: int| 0 <= k < s.len() ==> s[k].0 != key);
            lemma_assoc_map_push(s, key, tv);
            assert(forall|j: int|
                0 <= j < self.totals@.len() ==> (#[trigger] self.totals@[j]).1.wf());
        }
        let ghost entries_before = self.totals@;
        self.totals.push(((String::from_str(client), String::from_str(project)), totals));
        proof {
            let u = cache_assoc(self.totals@);
            assert(u =~= s.push((key, tv)));
            assert forall|a: int, b: int| 0 <= a < b < u.len() implies u[a].0 != u[b].0 by {
                if b < s.len() {
                    assert(u[a] == s[a] && u[b] == s[b]);
                    assert(s[a].0 != s[b].0);
                } else {
                    assert(u[a] == s[a]);
                    assert(s[a].0 != key);
                }
            }
            assert forall|j: int|
                0 <= j < self.totals@.len() implies (#[trigger] self.totals@[j]).1.wf() by {
                if j < entries_before.len() {
                    assert(self.totals@[j] == entries_before[j]);
                    assert(entries_before[j].1.wf());
                }
            }
        }
    }

    /// Answers a rolling-window query for a warm pair, without
    /// touching the ledger; a cold pair answers `None`.
    pub fn get_cached(
        &self,
        client: &str,
        project: &str,
        now: Stamp,
        current_timing_start: Option<Stamp>,
    ) -> (r: Option<Totals>)
        requires
            self.wf(),
            valid_stamp(now),
            match current_timing_start {
                Some(st) => valid_stamp(st),
                None => true,
            },
        ensures
            ({
                let key = (client@, project@);
                if self@.contains_key(key) {
                    let base = spec_to_totals(self@[key], now.day as int);
                    r matches Some(t) && t == match current_timing_start {
                        Some(st) => spec_with_current(base, st, now),
                        None => base,
                    }
                } else {
                    r is None
                }
            }),
    {
        match self.find(client, project) {
            Some(i) => {
                let base = self.totals[i].1.to_totals(now);
                match current_timing_start {
                    Some(st) => Some(base.with_current_timing(st, now)),
                    None => Some(base),
                }
            },
            None => None,
        }
    }

    /// Answers a rolling-window query for one pair. A warm pair is
    /// read from the cache; a cold pair is first rebuilt from an
    /// eight-week window of the ledger ending at `now` and installed.
    /// When the pair has an open session, its elapsed time extends
    /// the answer.
    pub fn get_totals(
        &mut self,
        client: &str,
        project: &str,
        now: Stamp,
        store: &TimingStore,
        current_timing_start: Option<Stamp>,
    ) -> (r: Totals)
        requires
            old(self).wf(),
            store.wf(),
            valid_stamp(now),
            match current_timing_start {
                Some(st) => valid_stamp(st),
                None => true,
            },
        ensures
            ({
                let key = (client@, project@);
                let cold = day_slice(
                    spec_daily_totals(
                        store@.timings,
                        now.ms - EIGHT_WEEKS_MS,
                        now.ms as int,
                        Some(client@),
                        Some(project@),
                    ),
                    client@,
                    project@,
                );
                let m = if old(self)@.contains_key(key) {
                    old(self)@[key]
                } else {
                    cold
                };
                let base = spec_to_totals(m, now.day as int);
                &&& final(self)@ == if old(self)@.contains_key(key) {
                    old(self)@
                } else {
                    old(self)@.insert(key, cold)
                }
                &&& r == match current_timing_start {
                    Some(st) => spec_with_current(base, st, now),
                    None => base,
                }
                &&& final(self).wf()
            }),
    {
        let base = match self.find(client, project) {
            Some(i) => self.totals[i].1.to_totals(now),
            None => {
                let from = Stamp { ms: now.ms - EIGHT_WEEKS_MS, day: now.day - 56 };
                let rows = store.get_timings_daily_totals(
                    from,
                    now,
                    Some(String::from_str(client)),
                    Some(String::from_str(project)),
                );
                proof {
                    lemma_daily_totals_keys(
                        store@.timings,
                        from.ms as int,
                        now.ms as int,
                        client@,
                        project@,
                    );
                    assert forall|k: int|
                        0 <= k < rows@.len() implies (#[trigger] rows@[k])@.client == client@
                            && rows@[k]@.project == project@ by {
                        lemma_assoc_map_index(totals_rows_assoc(rows@), k);
                        assert(assoc_map(totals_rows_assoc(rows@)).contains_key(
                            totals_rows_assoc(rows@)[k].0,
                        ));
                    }
                    lemma_rows_map_is_day_slice(rows@, client@, project@);
                }
                let dt = DailyTotals::from_rows(&rows);
                let base = dt.to_totals(now);
                self.install(client, project, dt);
                base
            },
        };
        match current_timing_start {
            Some(st) => base.with_current_timing(st, now),
            None => base,
        }
    }
}

/// A finished span folded into the cache: only a warm pair is
/// touched, and its bucket for the span's start day grows by the
/// span's duration; a cold pair stays cold.
pub open spec fn spec_cache_add(
    cache: Map<(Seq<char>, Seq<char>), Map<i64, i64>>,
    t: TimingView,
) -> Map<(Seq<char>, Seq<char>), Map<i64, i64>> {
    let key = (t.client, t.project);
    if cache.contains_key(key) {
        let m = cache[key];
        cache.insert(
            key,
            m.insert(
                t.start.day,
                spec_clamped_add(bucket_of(m, t.start.day as int), t.duration_ms()) as i64,
            ),
        )
    } else {
        cache
    }
}

} // verus!
