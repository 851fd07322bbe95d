//! Value types shared by the recorder, the totals cache and the
//! persistence boundary.

use vstd::prelude::*;

use crate::time::Stamp;
use crate::time::valid_stamp;

verus! {

/// A finalized, immutable span of recorded work time for one
/// (client, project) pair.
#[derive(Debug, Clone, PartialEq, Eq)]
pub struct Timing {
    pub start: Stamp,
    pub end: Stamp,
    pub project: String,
    pub client: String,
}

/// Mathematical image of a [`Timing`].
pub ghost struct TimingView {
    pub start: Stamp,
    pub end: Stamp,
    pub project: Seq<char>,
    pub client: Seq<char>,
}

impl View for Timing {
    type V = TimingView;

    open spec fn view(&self) -> TimingView {
        TimingView {
            start: self.start,
            end: self.end,
            project: self.project@,
            client: self.client@,
        }
    }
}

impl TimingView {
    /// How long the span lasted, in milliseconds.
    pub open spec fn duration_ms(self) -> int {
        self.end.ms - self.start.ms
    }

    /// Both endpoints lie in the range the library does arithmetic on.
    pub open spec fn valid(self) -> bool {
        valid_stamp(self.start) && valid_stamp(self.end)
    }
}

/// The single in-progress, not-yet-finalized work span. At most one
/// exists, owned by the recorder.
#[derive(Debug, Clone, PartialEq, Eq)]
pub struct CurrentTiming {
    pub start: Stamp,
    pub project: String,
    pub client: String,
}

/// Mathematical image of a [`CurrentTiming`].
pub ghost struct CurrentTimingView {
    pub start: Stamp,
    pub project: Seq<char>,
    pub client: Seq<char>,
}

impl View for CurrentTiming {
    type V = CurrentTimingView;

    open spec fn view(&self) -> CurrentTimingView {
        CurrentTimingView { start: self.start, project: self.project@, client: self.client@ }
    }
}

/// A field-for-field copy with the same view as the source.
pub(crate) fn copy_timing(t: &Timing) -> (r: Timing)
    ensures
        r@ == t@,
{
    Timing { start: t.start, end: t.end, client: t.client.clone(), project: t.project.clone() }
}

/// Optional bounds on a raw interval query: a window on the start
/// instant, and exact client and project names.
#[derive(Debug, Clone, Default, PartialEq, Eq)]
pub struct GetTimingsFilters {
    pub from: Option<Stamp>,
    pub to: Option<Stamp>,
    pub client: Option<String>,
    pub project: Option<String>,
}

/// Mathematical image of [`GetTimingsFilters`].
pub ghost struct GetTimingsFiltersView {
    pub from: Option<Stamp>,
    pub to: Option<Stamp>,
    pub client: Option<Seq<char>>,
    pub project: Option<Seq<char>>,
}

impl View for GetTimingsFilters {
    type V = GetTimingsFiltersView;

    open spec fn view(&self) -> GetTimingsFiltersView {
        GetTimingsFiltersView {
            from: self.from,
            to: self.to,
            client: match self.client {
                Some(ref c) => Some(c@),
                None => None,
            },
            project: match self.project {
                Some(ref p) => Some(p@),
                None => None,
            },
        }
    }
}

/// One day's accumulated work for one (client, project) pair, as the
/// read side of the persistence boundary reports it. The total is in
/// milliseconds.
#[derive(Debug, Clone, PartialEq, Eq)]
pub struct DailyTotalSummary {
    pub day: i64,
    pub total_ms: i64,
    pub client: String,
    pub project: String,
}

/// Mathematical image of a [`DailyTotalSummary`].
pub ghost struct DailyTotalSummaryView {
    pub day: i64,
    pub total_ms: i64,
    pub client: Seq<char>,
    pub project: Seq<char>,
}

impl View for DailyTotalSummary {
    type V = DailyTotalSummaryView;

    open spec fn view(&self) -> DailyTotalSummaryView {
        DailyTotalSummaryView {
            day: self.day,
            total_ms: self.total_ms,
            client: self.client@,
            project: self.project@,
        }
    }
}

/// A free-text note attached to one day's work on one
/// (client, project) pair.
#[derive(Debug, Clone, PartialEq, Eq)]
pub struct SummaryForDay {
    pub day: i64,
    pub project: String,
    pub client: String,
    pub summary: String,
    pub archived: bool,
}

/// Mathematical image of a [`SummaryForDay`].
pub ghost struct SummaryForDayView {
    pub day: i64,
    pub project: Seq<char>,
    pub client: Seq<char>,
    pub summary: Seq<char>,
    pub archived: bool,
}

impl View for SummaryForDay {
    type V = SummaryForDayView;

    open spec fn view(&self) -> SummaryForDayView {
        SummaryForDayView {
            day: self.day,
            project: self.project@,
            client: self.client@,
            summary: self.summary@,
            archived: self.archived,
        }
    }
}

/// A day's note joined with that day's accumulated total.
#[derive(Debug, Clone, PartialEq, Eq)]
pub struct SummaryAndTotalForDay {
    pub day: i64,
    pub project: String,
    pub client: String,
    pub summary: String,
    pub archived: bool,
    pub total_ms: i64,
}

/// Mathematical image of a [`SummaryAndTotalForDay`].
pub ghost struct SummaryAndTotalForDayView {
    pub day: i64,
    pub project: Seq<char>,
    pub client: Seq<char>,
    pub summary: Seq<char>,
    pub archived: bool,
    pub total_ms: i64,
}

impl View for SummaryAndTotalForDay {
    type V = SummaryAndTotalForDayView;

    open spec fn view(&self) -> SummaryAndTotalForDayView {
        SummaryAndTotalForDayView {
            day: self.day,
            project: self.project@,
            client: self.client@,
            summary: self.summary@,
            archived: self.archived,
            total_ms: self.total_ms,
        }
    }
}

/// What can go wrong at the edges of the library: a local-time
/// computation that has no answer, or a failure reported by the
/// persistence collaborator. Collaborators that drive a real database
/// construct the second variant from the error text they receive.
#[derive(Debug, Clone, PartialEq, Eq)]
pub enum Error {
    ChronoError(String),
    SqlxError(String),
}

} // verus!
