//! Label and text helpers of the dashboard widgets.
pub mod alerts_widget;
pub mod cpu_widget;
pub mod memory_widget;
