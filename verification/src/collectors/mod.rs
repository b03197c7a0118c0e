//! Shared record types of the collectors: alert levels, alerts and log entries.
use vstd::prelude::*;

pub mod cpu;

verus! {

/// Severity of an alert or a log entry.
#[derive(Debug, Clone, Copy, PartialEq, Eq, Structural)]
pub enum AlertLevel {
    Info,
    Warning,
    Critical,
}

/// One alert raised from a snapshot.
#[derive(Debug, Clone)]
pub struct Alert {
    pub level: AlertLevel,
    pub message: String,
}

/// One log line, as read from a file or a system journal.
#[derive(Debug, Clone)]
pub struct LogEntry {
    pub timestamp: i64,
    pub level: AlertLevel,
    pub source: String,
    pub origin: String,
    pub message: String,
}

} // verus!
