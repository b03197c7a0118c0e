use sysray::recording::{
    interval_in_range, is_raw_segment_name, size_limit_in_range, segment_file_name, RecordConfig, RecordRuntimeOptions, RecordingState,
    RotationPolicy,
};

fn defaults() -> RecordConfig {
    RecordConfig {
        interval_secs: 5,
        output: "./captures".to_string(),
        rotate: "daily".to_string(),
        max_file_size_mb: Some(128),
        keep_files: Some(7),
    }
}

#[test]
fn rotation_policy_parses_expected_values() {
    assert_eq!(RotationPolicy::parse("never"), RotationPolicy::Never);
    assert_eq!(RotationPolicy::parse("hourly"), RotationPolicy::Hourly);
    assert_eq!(RotationPolicy::parse("daily"), RotationPolicy::Daily);
}

#[test]
fn rotation_policy_aliases_and_case() {
    assert_eq!(RotationPolicy::parse("HOUR"), RotationPolicy::Hourly);
    assert_eq!(RotationPolicy::parse("Day"), RotationPolicy::Daily);
    assert_eq!(RotationPolicy::parse("weekly"), RotationPolicy::Never);
    assert_eq!(RotationPolicy::parse(""), RotationPolicy::Never);
}

#[test]
fn runtime_options_merge_cli_and_config_values() {
    let defaults = defaults();

    let options = RecordRuntimeOptions::from_sources(
        &defaults,
        Some("10s"),
        None,
        Some("hourly"),
        None,
        Some(3),
    );

    assert_eq!(options.interval_secs, 10);
    assert_eq!(options.output, "./captures".to_string());
    assert_eq!(options.rotate, RotationPolicy::Hourly);
    assert_eq!(options.max_file_size_bytes, Some(128 * 1024 * 1024));
    assert_eq!(options.keep_files, Some(3));
}

#[test]
fn runtime_options_intervals_and_zero_limits() {
    let d = defaults();
    let minutes = RecordRuntimeOptions::from_sources(&d, Some("2m"), Some("/out".to_string()), None, Some(0), Some(0));
    assert_eq!(minutes.interval_secs, 120);
    assert_eq!(minutes.output, "/out".to_string());
    assert_eq!(minutes.rotate, RotationPolicy::Daily);
    assert_eq!(minutes.max_file_size_bytes, None);
    assert_eq!(minutes.keep_files, None);
    let bare = RecordRuntimeOptions::from_sources(&d, Some("42"), None, None, None, None);
    assert_eq!(bare.interval_secs, 42);
    assert_eq!(bare.keep_files, Some(7));
    let bad = RecordRuntimeOptions::from_sources(&d, Some("soon"), None, None, None, None);
    assert_eq!(bad.interval_secs, 5);
    let plus = RecordRuntimeOptions::from_sources(&d, Some("+7s"), None, None, None, None);
    assert_eq!(plus.interval_secs, 7);
}

#[test]
fn bucket_keys_follow_the_policy() {
    let millis = 1_772_539_200_123;
    assert_eq!(RotationPolicy::Hourly.bucket_key(millis), Some("2026030312".to_string()));
    assert_eq!(RotationPolicy::Daily.bucket_key(millis), Some("20260303".to_string()));
    assert_eq!(RotationPolicy::Never.bucket_key(millis), None);
    assert_eq!(RotationPolicy::Daily.bucket_key(-1), Some("19691231".to_string()));
}

#[test]
fn segment_names_use_utc_stamp() {
    assert_eq!(segment_file_name(1_772_539_200_123), "pulsar_20260303_120000_123.jsonl");
    assert_eq!(segment_file_name(0), "pulsar_19700101_000000_000.jsonl");
    assert!(is_raw_segment_name("pulsar_20260303_120000_123.jsonl"));
    assert!(!is_raw_segment_name("pulsar_x.json"));
    assert!(!is_raw_segment_name("other_1.jsonl"));
}

#[test]
fn rotation_is_due_on_new_bucket_or_size() {
    let d = defaults();
    let options = RecordRuntimeOptions::from_sources(&d, None, None, Some("hourly"), Some(1), None);
    let mut state = RecordingState::new(&options);
    let t0 = 1_772_539_200_000;
    assert!(state.should_rotate(t0));
    state.begin_segment(segment_file_name(t0), t0);
    assert!(!state.should_rotate(t0 + 60_000));
    assert!(state.should_rotate(t0 + 3_600_000));
    state.record_line(1024 * 1024);
    assert!(state.should_rotate(t0 + 60_000));
}

#[test]
fn prune_keeps_two_raw_segments() {
    let d = defaults();
    let options = RecordRuntimeOptions {
        interval_secs: 5,
        output: "/tmp/out".to_string(),
        rotate: RotationPolicy::Never,
        max_file_size_bytes: None,
        keep_files: Some(2),
    };
    let _ = d;
    let mut state = RecordingState::new(&options);
    state.begin_segment("pulsar_20260303_130000_000.jsonl".to_string(), 0);
    let names = vec![
        "pulsar_20260303_120002_000.jsonl".to_string(),
        "notes.txt".to_string(),
        "pulsar_20260303_120000_000.jsonl".to_string(),
        "pulsar_20260303_130000_000.jsonl".to_string(),
        "pulsar_20260303_120001_000.jsonl".to_string(),
    ];
    let pruned = state.segments_to_prune(names);
    assert_eq!(
        pruned,
        vec![
            "pulsar_20260303_120000_000.jsonl".to_string(),
            "pulsar_20260303_120001_000.jsonl".to_string(),
        ]
    );
}

#[test]
fn prune_without_retention_or_with_zero_keep() {
    let options = RecordRuntimeOptions {
        interval_secs: 5,
        output: "/tmp/out".to_string(),
        rotate: RotationPolicy::Never,
        max_file_size_bytes: None,
        keep_files: None,
    };
    let state = RecordingState::new(&options);
    assert!(state.segments_to_prune(vec!["pulsar_1.jsonl".to_string()]).is_empty());
    let zero = RecordRuntimeOptions { keep_files: Some(1), ..options };
    let mut s = RecordingState::new(&zero);
    s.begin_segment("pulsar_3.jsonl".to_string(), 0);
    let pruned = s.segments_to_prune(vec![
        "pulsar_1.jsonl".to_string(),
        "pulsar_3.jsonl".to_string(),
        "pulsar_2.jsonl".to_string(),
    ]);
    assert_eq!(pruned, vec!["pulsar_1.jsonl".to_string(), "pulsar_2.jsonl".to_string()]);
}

#[test]
fn fresh_segment_is_not_due_at_once() {
    let d = defaults();
    for rotate in ["never", "hourly", "daily"] {
        let options = RecordRuntimeOptions::from_sources(&d, None, None, Some(rotate), None, None);
        let mut state = RecordingState::new(&options);
        let t0 = 1_700_000_000_000;
        assert!(state.should_rotate(t0));
        state.begin_segment(segment_file_name(t0), t0);
        assert!(!state.should_rotate(t0));
    }
}

#[test]
fn never_policy_rotates_only_on_size() {
    let d = defaults();
    let options = RecordRuntimeOptions::from_sources(&d, None, None, Some("never"), Some(1), None);
    let mut state = RecordingState::new(&options);
    state.begin_segment("pulsar_a.jsonl".to_string(), 0);
    assert!(!state.should_rotate(400_000_000_000));
    state.record_line(2_000_000);
    assert!(state.should_rotate(1));
}

#[test]
fn segment_names_sort_as_time() {
    let times = [0i64, 999, 1_000, 59_999, 3_600_000, 86_399_999, 1_700_000_000_000, 1_772_539_200_123];
    for pair in times.windows(2) {
        let a = segment_file_name(pair[0]);
        let b = segment_file_name(pair[1]);
        assert!(a < b, "{a} {b}");
        assert!(is_raw_segment_name(&a));
    }
}

#[test]
fn option_ranges_are_checked() {
    assert!(interval_in_range(None));
    assert!(interval_in_range(Some("10s")));
    assert!(interval_in_range(Some("307445734561825860m")));
    assert!(!interval_in_range(Some("307445734561825861m")));
    assert!(interval_in_range(Some("99999999999999999999m")));
    assert!(size_limit_in_range(Some(17_592_186_044_415), None));
    assert!(!size_limit_in_range(Some(17_592_186_044_416), None));
    assert!(!size_limit_in_range(None, Some(u64::MAX)));
    assert!(size_limit_in_range(Some(0), Some(u64::MAX)));
}

#[test]
fn segment_due_names_a_new_segment_only_when_rotation_is_due() {
    let d = defaults();
    let options = RecordRuntimeOptions::from_sources(&d, None, None, Some("hourly"), Some(1), None);
    let mut state = RecordingState::new(&options);
    let t0 = 1_772_539_200_123;
    assert_eq!(state.segment_due(t0), Some("pulsar_20260303_120000_123.jsonl".to_string()));
    state.begin_segment(segment_file_name(t0), t0);
    assert_eq!(state.segment_due(t0 + 60_000), None);
    assert_eq!(
        state.segment_due(t0 + 3_600_000),
        Some("pulsar_20260303_130000_123.jsonl".to_string())
    );
    state.record_line(1024 * 1024 - 1);
    assert_eq!(state.segment_due(t0 + 60_000), Some(segment_file_name(t0 + 60_000)));
}
