use sysray::external::{json_string, JsonValue};
use sysray::collectors::AlertLevel;
use sysray::log_sources::{
    infer_level, infer_source, journal_args, linux_origin, linux_source, macos_level,
    parse_event_timestamp, parse_file_log_line, parse_journal_line, parse_journal_output,
    parse_json_log_line, parse_macos_compact_events, parse_macos_json_events,
    parse_nginx_log_line, parse_windows_events, priority_to_level, severity_rank,
};

#[test]
fn infer_level_by_keywords() {
    assert_eq!(infer_level("Kernel PANIC now"), AlertLevel::Critical);
    assert_eq!(infer_level("job FAILED"), AlertLevel::Critical);
    assert_eq!(infer_level("disk warning"), AlertLevel::Warning);
    assert_eq!(infer_level("request timeout"), AlertLevel::Warning);
    assert_eq!(infer_level("packet dropped"), AlertLevel::Warning);
    assert_eq!(infer_level("all good"), AlertLevel::Info);
    assert_eq!(infer_level(""), AlertLevel::Info);
}

#[test]
fn severity_ranks_order_levels() {
    assert_eq!(severity_rank(&AlertLevel::Critical), 3);
    assert_eq!(severity_rank(&AlertLevel::Warning), 2);
    assert_eq!(severity_rank(&AlertLevel::Info), 1);
}

#[test]
fn priority_maps_to_level() {
    assert_eq!(priority_to_level(Some(0)), AlertLevel::Critical);
    assert_eq!(priority_to_level(Some(3)), AlertLevel::Critical);
    assert_eq!(priority_to_level(Some(4)), AlertLevel::Warning);
    assert_eq!(priority_to_level(Some(5)), AlertLevel::Info);
    assert_eq!(priority_to_level(None), AlertLevel::Info);
}

#[test]
fn macos_message_types_map_to_levels() {
    assert_eq!(macos_level("Fault"), AlertLevel::Critical);
    assert_eq!(macos_level("error"), AlertLevel::Critical);
    assert_eq!(macos_level("Default"), AlertLevel::Info);
    assert_eq!(macos_level("info"), AlertLevel::Info);
    assert_eq!(macos_level("warning-ish"), AlertLevel::Warning);
    assert_eq!(macos_level("debug"), AlertLevel::Info);
}

#[test]
fn infer_source_prefers_known_families_then_file_name() {
    assert_eq!(infer_source("/var/log/nginx/access.log", "GET /"), "nginx");
    assert_eq!(infer_source("/srv/app.log", "NullPointerException at"), "jvm");
    assert_eq!(infer_source("/opt/JAVA/app.log", "hello"), "jvm");
    assert_eq!(infer_source("/var/log/syslog", "hello"), "syslog");
    assert_eq!(infer_source("/srv/logs/app.log", "hello"), "app.log");
    assert_eq!(infer_source("/srv/logs/..", "hello"), "file");
}

#[test]
fn json_log_line_reads_fields() {
    let entry = parse_json_log_line(
        r#"{"msg":"disk failed","level":"error","service":"api"}"#,
        "/srv/app.log",
        42,
    )
    .unwrap();
    assert_eq!(entry.message, "disk failed");
    assert_eq!(entry.level, AlertLevel::Critical);
    assert_eq!(entry.source, "api");
    assert_eq!(entry.origin, "/srv/app.log");
    assert_eq!(entry.timestamp, 42);

    let fallback = parse_json_log_line(r#"{"event":"started"}"#, "/srv/worker.log", 7).unwrap();
    assert_eq!(fallback.level, AlertLevel::Info);
    assert_eq!(fallback.source, "worker.log");

    assert!(parse_json_log_line(r#"{"level":"info"}"#, "/srv/app.log", 1).is_none());
    assert!(parse_json_log_line("plain text", "/srv/app.log", 1).is_none());
}

#[test]
fn json_numbers_and_arrays_are_read_as_text() {
    let entry = parse_json_log_line(r#"{"message":["first","second"],"level":404}"#, "/a.log", 0)
        .unwrap();
    assert_eq!(entry.message, "first");
    assert_eq!(entry.level, AlertLevel::Info);
}

#[test]
fn nginx_line_levels() {
    let e = parse_nginx_log_line("2024/01/01 [error] 12#0: upstream", "/var/log/x.log", 5).unwrap();
    assert_eq!(e.level, AlertLevel::Critical);
    assert_eq!(e.source, "nginx");
    let w = parse_nginx_log_line("[warn] slow", "/var/log/x.log", 5).unwrap();
    assert_eq!(w.level, AlertLevel::Warning);
    let i = parse_nginx_log_line("GET / 200", "/var/log/nginx/access.log", 5).unwrap();
    assert_eq!(i.level, AlertLevel::Info);
    assert!(parse_nginx_log_line("plain line", "/var/log/app.log", 5).is_none());
}

#[test]
fn file_line_falls_back_to_plain_text() {
    let e = parse_file_log_line("service failed to start", "/var/log/syslog", 9);
    assert_eq!(e.level, AlertLevel::Critical);
    assert_eq!(e.source, "syslog");
    assert_eq!(e.message, "service failed to start");
    let j = parse_file_log_line(r#"{"message":"hi"}"#, "/var/log/nginx/x.log", 9);
    assert_eq!(j.message, "hi");
    assert_eq!(j.source, "nginx");
}

#[test]
fn journal_line_fields() {
    let line = r#"{"MESSAGE":"oom killed","__REALTIME_TIMESTAMP":"1700000000123456","PRIORITY":"3","SYSLOG_IDENTIFIER":"kernel","_SYSTEMD_UNIT":"init.scope"}"#;
    let e = parse_journal_line(line, 99).unwrap();
    assert_eq!(e.timestamp, 1_700_000_000);
    assert_eq!(e.level, AlertLevel::Critical);
    assert_eq!(e.source, "kernel");
    assert_eq!(e.origin, "journalctl/init.scope");
    assert_eq!(linux_source(line), "kernel");
    assert_eq!(linux_origin(line), "journalctl/init.scope");

    let bare = r#"{"MESSAGE":"hello","_TRANSPORT":"stdout"}"#;
    let b = parse_journal_line(bare, 99).unwrap();
    assert_eq!(b.timestamp, 99);
    assert_eq!(b.level, AlertLevel::Info);
    assert_eq!(b.source, "journal");
    assert_eq!(b.origin, "journalctl/stdout");
    assert_eq!(linux_origin(r#"{"MESSAGE":"x"}"#), "journalctl");
    assert!(parse_journal_line(r#"{"PRIORITY":"3"}"#, 1).is_none());
    assert!(parse_journal_line("not json", 1).is_none());
}

#[test]
fn journal_negative_micros_truncate_toward_zero() {
    let e = parse_journal_line(r#"{"MESSAGE":"x","__REALTIME_TIMESTAMP":"-1500000"}"#, 0).unwrap();
    assert_eq!(e.timestamp, -1);
}

#[test]
fn journal_output_keeps_parsable_lines() {
    let out = "{\"MESSAGE\":\"a\"}\nnot json\n{\"MESSAGE\":\"b\",\"PRIORITY\":\"4\"}\n";
    let entries = parse_journal_output(out, 5);
    assert_eq!(entries.len(), 2);
    assert_eq!(entries[0].message, "a");
    assert_eq!(entries[1].message, "b");
    assert_eq!(entries[1].level, AlertLevel::Warning);
}

#[test]
fn journal_arguments() {
    let args = journal_args(300, 50);
    let expected = vec![
        "--since", "-300 seconds", "-p", "info..emerg", "-o", "json", "--no-pager", "-n", "50",
    ];
    assert_eq!(args, expected);
}

#[test]
fn event_timestamps_parse_rfc3339_or_fall_back() {
    assert_eq!(parse_event_timestamp("2023-11-14T22:13:20Z", 5), 1_700_000_000);
    assert_eq!(parse_event_timestamp("2023-11-14T23:13:20+01:00", 5), 1_700_000_000);
    assert_eq!(parse_event_timestamp("yesterday", 5), 5);
}

#[test]
fn windows_events_parse() {
    let out = r#"[{"TimeCreated":"2023-11-14T22:13:20Z","LevelDisplayName":"Error","ProviderName":"Disk","LogName":"System","Id":7,"Message":"bad block"},{"LevelDisplayName":"Warning","Message":"low space"},{"LevelDisplayName":"Error"}]"#;
    let entries = parse_windows_events(out, 11);
    assert_eq!(entries.len(), 2);
    assert_eq!(entries[0].timestamp, 1_700_000_000);
    assert_eq!(entries[0].level, AlertLevel::Critical);
    assert_eq!(entries[0].source, "Disk");
    assert_eq!(entries[0].origin, "Get-WinEvent/System/event-7");
    assert_eq!(entries[1].timestamp, 11);
    assert_eq!(entries[1].level, AlertLevel::Warning);
    assert_eq!(entries[1].source, "eventlog");
    assert_eq!(entries[1].origin, "Get-WinEvent/eventlog");
    let single = parse_windows_events(r#"{"Message":"one","LevelDisplayName":"Information"}"#, 3);
    assert_eq!(single.len(), 1);
    assert_eq!(single[0].level, AlertLevel::Info);
    assert!(parse_windows_events("garbage", 3).is_empty());
}

#[test]
fn macos_json_events_newest_first() {
    let out = r#"[{"eventMessage":"old","messageType":"Default"},{"eventMessage":"mid","messageType":"Error","subsystem":"com.apple.x"},{"message":"new","messageType":"Fault","subsystem":"s","category":"c","processImagePath":"/usr/bin/p"}]"#;
    let entries = parse_macos_json_events(out, 2, 8).unwrap();
    assert_eq!(entries.len(), 2);
    assert_eq!(entries[0].message, "new");
    assert_eq!(entries[0].level, AlertLevel::Critical);
    assert_eq!(entries[0].origin, "log show json/s/c");
    assert_eq!(entries[0].source, "/usr/bin/p");
    assert_eq!(entries[1].message, "mid");
    assert_eq!(entries[1].origin, "log show json/com.apple.x");
    assert_eq!(entries[1].source, "log");
    assert_eq!(entries[1].timestamp, 8);
    assert!(parse_macos_json_events("not json", 2, 8).is_none());
}

#[test]
fn macos_compact_events_keep_last_lines_in_order() {
    let out = "a b c d kernel first\n\n2024 10:00 x y launchd error happened\nshort line\n";
    let entries = parse_macos_compact_events(out, 2, 4);
    assert_eq!(entries.len(), 2);
    assert_eq!(entries[0].message, "2024 10:00 x y launchd error happened");
    assert_eq!(entries[0].source, "launchd");
    assert_eq!(entries[0].level, AlertLevel::Critical);
    assert_eq!(entries[1].message, "short line");
    assert_eq!(entries[1].source, "log");
    assert_eq!(entries[1].origin, "log show compact");
    assert_eq!(entries[1].timestamp, 4);
}

#[test]
fn json_values_read_as_text() {
    assert_eq!(json_string(&JsonValue::Text("a".to_string())), Some("a".to_string()));
    assert_eq!(json_string(&JsonValue::Number("4.5".to_string())), Some("4.5".to_string()));
    assert_eq!(json_string(&JsonValue::Array(vec![Some("x".to_string()), None])), Some("x".to_string()));
    assert_eq!(json_string(&JsonValue::Array(vec![None, Some("y".to_string())])), None);
    assert_eq!(json_string(&JsonValue::Array(vec![])), None);
    assert_eq!(json_string(&JsonValue::Other), None);
}

#[test]
fn json_field_kinds_through_parser() {
    let number = parse_json_log_line(r#"{"message":12.5}"#, "/a.log", 0).unwrap();
    assert_eq!(number.message, "12.5");
    assert!(parse_json_log_line(r#"{"message":[1,"x"]}"#, "/a.log", 0).is_none());
    let fallback = parse_json_log_line(r#"{"message":null,"msg":"m"}"#, "/a.log", 0).unwrap();
    assert_eq!(fallback.message, "m");
    assert!(parse_json_log_line(r#"["message"]"#, "/a.log", 0).is_none());
}
