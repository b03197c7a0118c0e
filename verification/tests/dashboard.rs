use sysray::collectors::cpu::{map_load_avg_source, LoadAverageSource, RawLoadAverageSource};
use sysray::collectors::AlertLevel;
use sysray::reference::Locale;
use sysray::tui::dashboard::{
    format_uptime, Dashboard, OperatorMode, Panel, PanelVisibility, ReferenceUiState,
};
use sysray::tui::i18n::text;
use sysray::tui::widgets::alerts_widget::{level_label, truncate_text};
use sysray::tui::widgets::cpu_widget::{load_label, load_windows_suffix};
use sysray::tui::widgets::memory_widget::display_u64;

const ALL: [Panel; 8] = [
    Panel::System,
    Panel::Cpu,
    Panel::Memory,
    Panel::Linux,
    Panel::Disk,
    Panel::Network,
    Panel::Alerts,
    Panel::Process,
];

fn query(q: &str) -> ReferenceUiState {
    ReferenceUiState { visible: true, input_active: false, query: q.to_string(), selected: 0 }
}

#[test]
fn new_dashboard_shows_everything_in_full_mode() {
    let d = Dashboard::new("dark");
    assert_eq!(d.operator_mode(), OperatorMode::Full);
    assert_eq!(d.visible_count(), 8);
    assert_eq!(d.theme_name, "dark");
    assert!(ALL.iter().all(|p| d.is_panel_visible(*p)));
}

#[test]
fn toggling_twice_restores_and_flips_one_panel() {
    let mut d = Dashboard::new("dark");
    d.toggle_panel(Panel::Disk);
    assert!(!d.is_panel_visible(Panel::Disk));
    assert_eq!(d.visible_count(), 7);
    assert!(d.is_panel_visible(Panel::Network));
    d.toggle_panel(Panel::Disk);
    assert!(d.is_panel_visible(Panel::Disk));
    assert_eq!(d.visible_count(), 8);
}

#[test]
fn operator_modes_apply_presets() {
    let mut d = Dashboard::new("dark");
    d.set_operator_mode(OperatorMode::Storage);
    assert_eq!(d.operator_mode(), OperatorMode::Storage);
    assert_eq!(d.visible_count(), 5);
    assert!(!d.is_panel_visible(Panel::Cpu));
    assert!(d.is_panel_visible(Panel::Disk));
    for mode in [
        OperatorMode::Overview,
        OperatorMode::Storage,
        OperatorMode::Network,
        OperatorMode::Process,
        OperatorMode::Pressure,
        OperatorMode::Full,
    ] {
        d.set_operator_mode(mode);
        assert!(d.is_panel_visible(Panel::Alerts));
    }
    let visible = d.visible_panels(&ALL);
    assert_eq!(visible.len(), 8);
    d.set_operator_mode(OperatorMode::Network);
    assert_eq!(d.visible_panels(&ALL), vec![Panel::System, Panel::Cpu, Panel::Linux, Panel::Network, Panel::Alerts]);
}

#[test]
fn mode_labels_and_visibility_defaults() {
    assert_eq!(OperatorMode::Overview.label(), "overview");
    assert_eq!(OperatorMode::Pressure.label(), "pressure");
    assert_eq!(OperatorMode::Full.label(), "full");
    let mut v = PanelVisibility::default();
    assert_eq!(v.visible_count(), 8);
    v.toggle(Panel::Process);
    assert!(!v.is_visible(Panel::Process));
    let mut full = OperatorMode::Full.visibility();
    full.process = false;
    assert_eq!(v, full);
}

#[test]
fn cycle_theme_keeps_panels() {
    let mut d = Dashboard::new("dark");
    d.toggle_panel(Panel::Cpu);
    d.cycle_theme("light");
    assert_eq!(d.theme_name, "light");
    assert!(!d.is_panel_visible(Panel::Cpu));
}

#[test]
fn reference_bias_ranks_preferred_first() {
    assert_eq!(OperatorMode::Storage.reference_bias("disk", "disk", 3), 9_997);
    assert_eq!(OperatorMode::Storage.reference_bias("cpu", "cpu", 3), 997);
    assert_eq!(OperatorMode::Full.reference_bias("cpu", "cpu", 20_000), 0);
    assert_eq!(OperatorMode::Pressure.reference_bias("process", "disk", 0), 10_000);
    assert_eq!(OperatorMode::Overview.reference_bias("network", "network", 2_000), 0);
}

#[test]
fn panel_highlight_follows_query() {
    let d = Dashboard::new("dark");
    assert_eq!(d.panel_key(Panel::Memory), "memory");
    assert!(d.panel_highlighted(Panel::Memory, &query("swap")));
    assert!(!d.panel_highlighted(Panel::Network, &query("swap")));
    assert!(!d.panel_highlighted(Panel::Memory, &query("")));
}

#[test]
fn reference_hits_rank_by_mode_or_search() {
    let mut d = Dashboard::new("dark");
    d.set_operator_mode(OperatorMode::Network);
    let hits = d.reference_hits(&query(""));
    assert_eq!(hits.len(), 14);
    assert_eq!(hits[0].entry.panel, "cpu");
    assert_eq!(hits[0].score, 10_000);
    let first_other = hits.iter().position(|h| h.score < 9_000).unwrap();
    assert!(hits[first_other..].iter().all(|h| ["memory", "disk", "alerts", "process"].contains(&h.entry.panel)));
    let searched = d.reference_hits(&query("swap"));
    assert!(searched.iter().any(|h| h.entry.id == "memory.swap"));
}

#[test]
fn uptime_formats_units() {
    assert_eq!(format_uptime(59), "up 0m");
    assert_eq!(format_uptime(3_660), "up 1h 1m");
    assert_eq!(format_uptime(90_061), "up 1d 1h 1m");
    assert_eq!(format_uptime(86_400), "up 1d 0h 0m");
}

#[test]
fn widget_labels() {
    assert_eq!(level_label(&AlertLevel::Warning, Locale::Fr), "ALRT");
    assert_eq!(level_label(&AlertLevel::Warning, Locale::En), "WARN");
    assert_eq!(level_label(&AlertLevel::Critical, Locale::Fr), "CRIT");
    assert_eq!(level_label(&AlertLevel::Info, Locale::En), "INFO");
    assert_eq!(load_label(Locale::Fr, LoadAverageSource::DerivedDemand), "Demande~");
    assert_eq!(load_label(Locale::En, LoadAverageSource::Native), "Load");
    assert_eq!(load_windows_suffix(LoadAverageSource::Native), "1m  5m  15m native");
    assert_eq!(load_windows_suffix(LoadAverageSource::Unknown), "1m  5m  15m");
    assert_eq!(display_u64(1234, true), "1234");
    assert_eq!(display_u64(1234, false), "n/a");
    assert_eq!(text(Locale::Fr, "oui", "yes"), "oui");
    assert_eq!(text(Locale::En, "oui", "yes"), "yes");
    assert_eq!(map_load_avg_source(RawLoadAverageSource::DerivedDemand), LoadAverageSource::DerivedDemand);
    assert_eq!(LoadAverageSource::default(), LoadAverageSource::Unknown);
}

#[test]
fn truncation_keeps_limit() {
    assert_eq!(truncate_text("short", 10), "short");
    assert_eq!(truncate_text("exactly", 7), "exactly");
    assert_eq!(truncate_text("abcdefgh", 5), "abcd…");
    assert_eq!(truncate_text("éèàùç", 3), "éè…");
    assert_eq!(truncate_text("abc", 0), "…");
    assert_eq!(truncate_text("abcdef", 4).chars().count(), 4);
}
