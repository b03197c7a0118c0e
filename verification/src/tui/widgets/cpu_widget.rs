//! Load-average labels of the CPU panel.
use vstd::prelude::*;
use crate::collectors::cpu::LoadAverageSource;
use crate::reference::Locale;
use crate::tui::i18n::text;

verus! {

/// `Demand~` for derived load, `Load` otherwise (French `Demande~`, `Charge`).
pub fn load_label(locale: Locale, source: LoadAverageSource) -> (r: &'static str)
    ensures
        r == (match source {
            LoadAverageSource::DerivedDemand => match locale {
                Locale::Fr => "Demande~",
                Locale::En => "Demand~",
            },
            _ => match locale {
                Locale::Fr => "Charge",
                Locale::En => "Load",
            },
        }),
{
    match source {
        LoadAverageSource::DerivedDemand => text(locale, "Demande~", "Demand~"),
        _ => text(locale, "Charge", "Load"),
    }
}

/// The window legend, naming where the values come from.
pub fn load_windows_suffix(source: LoadAverageSource) -> (r: &'static str)
    ensures
        r == (match source {
            LoadAverageSource::Native => "1m  5m  15m native",
            LoadAverageSource::DerivedDemand => "1m  5m  15m derived",
            LoadAverageSource::Unknown => "1m  5m  15m",
        }),
{
    match source {
        LoadAverageSource::Native => "1m  5m  15m native",
        LoadAverageSource::DerivedDemand => "1m  5m  15m derived",
        LoadAverageSource::Unknown => "1m  5m  15m",
    }
}

} // verus!
