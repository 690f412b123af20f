//! Incremental log tailing with verified event extraction and a presence
//! registry: the growing log file is read from a tracked byte offset, new
//! content is diffed line by line against the previously seen tail, added
//! lines are scanned for enter/exit patterns, and the resulting events are
//! applied to a registry of currently present names.
pub mod cursor;
pub mod diff;
pub mod event;
pub mod extract;
pub mod laws;
pub mod locate;
pub mod pipeline;
pub mod registry;
pub mod scan;

pub use cursor::LogCursor;
pub use diff::DiffSpan;
pub use event::Event;
pub use extract::{extract_events, extract_from_spans};
pub use locate::{logs_folder_path, pick_latest, DirEntryInfo};
pub use pipeline::{process_log_diff, WatchState};
pub use registry::{Player, PresenceRegistry, Snapshot};
pub use scan::classify_line;
