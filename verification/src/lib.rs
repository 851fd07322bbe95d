//! Work-time recording and rolling totals.
//!
//! The library tracks how long a user works on a given (client, project)
//! pair. A session state machine decides when a work interval begins, ends
//! or splits; a minimum-duration filter keeps noise out of the ledger; a
//! totals cache answers rolling-window queries (today, this week, last
//! week, eight weeks) without re-scanning history.

pub mod api;
pub mod assoc;
pub mod signals;
pub mod store;
pub mod text;
pub mod time;
pub mod timings_recorder;
pub mod totals_cache;
pub mod tray;

pub use api::CurrentTiming;
pub use api::DailyTotalSummary;
pub use api::Error;
pub use api::GetTimingsFilters;
pub use api::SummaryAndTotalForDay;
pub use api::SummaryForDay;
pub use api::Timing;
pub use signals::DesktopId;
pub use signals::IdleNotification;
pub use signals::VDMessage;
pub use signals::VirtualDesktopMessage;
pub use store::TimingStore;
pub use text::compare_client_and_project_names;
pub use text::parse_desktop_name;
pub use timings_recorder::TimingsRecorder;
pub use tray::DbusMenu;
pub use time::Stamp;
pub use time::stamp_from_ms;
pub use totals_cache::DailyTotals;
pub use totals_cache::Totals;
