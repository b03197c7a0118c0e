use sysray::tui::dashboard::{
    all_hidden_hint, clamp_selection, snapshot_clock, toggle_segment, Dashboard, MonitoringLayout,
    OperatorMode, Panel, ReferenceUiState, Segment, Tone,
};

fn texts(segments: &[Segment]) -> String {
    segments.iter().map(|s| s.text.as_str()).collect()
}

fn ui(query: &str, visible: bool, input_active: bool) -> ReferenceUiState {
    ReferenceUiState { visible, input_active, query: query.to_string(), selected: 0 }
}

#[test]
fn toggle_segments_show_state() {
    let on = toggle_segment("s", "sys", true);
    assert_eq!(on.text, "s:sys");
    assert_eq!(on.tone, Tone::Highlight);
    let off = toggle_segment("p", "proc", false);
    assert_eq!(off.text, "p:proc off");
    assert_eq!(off.tone, Tone::Muted);
}

#[test]
fn footer_line_text() {
    let mut d = Dashboard::new("ocean");
    d.toggle_panel(Panel::Linux);
    let footer = d.footer_segments(&ui("", false, false), 3, 2, 1);
    assert_eq!(
        texts(&footer),
        " q:quit  r:refresh  t:theme(ocean)  /:search  ?:index  esc:clear  1:overview  2:storage  3:network  4:process  5:pressure  6:full  s:sys c:cpu m:mem l:linux off d:disk n:net a:alerts p:proc  visible:7/8  alerts:3 w:2 c:1    reference:all  Pulsar v0.1.0 — Kevin Vanden-Brande"
    );
    let counts = footer.iter().find(|s| s.text.starts_with("alerts:")).unwrap();
    assert_eq!(counts.tone, Tone::Alert);
    let quiet = d.footer_segments(&ui("swap", true, true), 0, 0, 0);
    assert!(texts(&quiet).contains("esc:close search  "));
    let counts = quiet.iter().find(|s| s.text.starts_with("alerts:")).unwrap();
    assert_eq!(counts.tone, Tone::Highlight);
    assert_eq!(quiet[quiet.len() - 2].text, "reference:swap");
    let index = d.footer_segments(&ui("", true, false), 0, 0, 0);
    assert!(texts(&index).contains("esc:close index  "));
}

#[test]
fn header_line_text() {
    let mut d = Dashboard::new("dark");
    d.set_operator_mode(OperatorMode::Pressure);
    let header = d.header_segments(Some("box"), Some("Linux"), Some(3_660), "12:00:01", &ui("", false, false));
    assert_eq!(header.len(), 6);
    assert_eq!(header[0].tone, Tone::Title);
    assert_eq!(header[1].text, "  box  Linux  up 1h 1m  12:00:01");
    assert_eq!(header[3].text, "mode:pressure");
    assert_eq!(header[5].text, "index:off");
    assert_eq!(header[5].tone, Tone::Muted);
    let bare = d.header_segments(None, None, None, "", &ui("disk", false, false));
    assert_eq!(bare[1].text, "  unknown      ");
    assert_eq!(bare[5].text, "search:disk");
}

#[test]
fn clock_of_snapshot() {
    assert_eq!(snapshot_clock(1_700_000_000), "22:13:20");
    assert_eq!(snapshot_clock(0), "00:00:00");
    assert_eq!(snapshot_clock(-1), "23:59:59");
    assert_eq!(snapshot_clock(i64::MAX), "");
}

#[test]
fn selection_is_clamped() {
    assert_eq!(clamp_selection(5, 3), 2);
    assert_eq!(clamp_selection(1, 3), 1);
    assert_eq!(clamp_selection(7, 0), 0);
}

#[test]
fn monitoring_layout_follows_visibility() {
    let mut d = Dashboard::new("dark");
    assert_eq!(d.monitoring_layout(), MonitoringLayout::TopAndProcess { left: true, right: true });
    d.set_operator_mode(OperatorMode::Pressure);
    assert_eq!(d.monitoring_layout(), MonitoringLayout::TopOnly { left: true, right: true });
    for p in [Panel::Cpu, Panel::Memory, Panel::Linux, Panel::Disk, Panel::Alerts] {
        d.toggle_panel(p);
    }
    assert_eq!(d.monitoring_layout(), MonitoringLayout::AllHidden);
    d.toggle_panel(Panel::Process);
    assert_eq!(d.monitoring_layout(), MonitoringLayout::ProcessOnly);
    d.toggle_panel(Panel::Disk);
    assert_eq!(d.monitoring_layout(), MonitoringLayout::TopAndProcess { left: false, right: true });
    assert_eq!(all_hidden_hint(), "All panels hidden. Toggle with s/c/m/l/d/n/a/p.");
}
