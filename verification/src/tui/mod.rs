//! Terminal dashboard state and the text helpers of its widgets.
pub mod dashboard;
pub mod i18n;
pub mod widgets;
