//! Host monitoring helpers: the reference/search index, log-source parsing
//! and tailing decisions, recording rotation, maintenance windows, schedule
//! templates and dashboard state.
pub mod text;
pub mod order;
pub mod sort;
pub mod reference;
pub mod wildcard;
pub mod collectors;
pub mod numbers;
pub mod calendar;
pub mod external;
pub mod log_sources;
pub mod recording;
pub mod tui;
pub mod schedule;
pub mod maintenance;
