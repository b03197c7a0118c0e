use sysray::collectors::{Alert, AlertLevel};
use sysray::reference::Locale;
use sysray::tui::dashboard::Tone;
use sysray::tui::widgets::alerts_widget::{alert_lines, alerts_title, no_alerts_text};

fn alert(level: AlertLevel, message: &str) -> Alert {
    Alert { level, message: message.to_string() }
}

#[test]
fn alert_lines_fit_the_panel() {
    let alerts = vec![
        alert(AlertLevel::Critical, "disk almost full on /var"),
        alert(AlertLevel::Info, "ok"),
        alert(AlertLevel::Warning, "third"),
    ];
    let lines = alert_lines(&alerts, 2, 15, Locale::Fr);
    assert_eq!(lines.len(), 2);
    assert_eq!(lines[0].label, "CRIT");
    assert_eq!(lines[0].tone, Tone::Alert);
    assert_eq!(lines[0].message, "disk almo…");
    assert_eq!(lines[0].message.chars().count(), 10);
    assert_eq!(lines[1].label, "INFO");
    assert_eq!(lines[1].tone, Tone::Highlight);
    assert_eq!(lines[1].message, "ok");
    let narrow = alert_lines(&alerts, 10, 3, Locale::En);
    assert_eq!(narrow.len(), 3);
    assert_eq!(narrow[2].label, "WARN");
    assert_eq!(narrow[2].message, "…");
    assert!(alert_lines(&alerts, 0, 80, Locale::En).is_empty());
}

#[test]
fn alerts_panel_title_and_empty_text() {
    let t = alerts_title(3, Locale::Fr, true);
    assert_eq!(t.text, " ◉ ALERTES (3) ");
    assert_eq!(t.tone, Tone::Alert);
    let e = alerts_title(0, Locale::En, false);
    assert_eq!(e.text, " ◉ ALERTS (0) ");
    assert_eq!(e.tone, Tone::Title);
    assert_eq!(no_alerts_text(Locale::Fr), "Aucune alerte active");
    assert_eq!(no_alerts_text(Locale::En), "No active alerts");
}
