use sysray::collectors::{AlertLevel, LogEntry};
use sysray::log_sources::{
    choose_tail_files, dedup_paths, finish_read, keep_last_lines, last_lines, plan_read, record_read,
    sort_entries, FileCandidate, FileTailState, ReadOutcome, ReadStep, TailRefresh, TailStates,
};

fn state(offset: u64, file_size: u64, modified_ts: i64) -> FileTailState {
    FileTailState { offset, file_size, modified_ts }
}

fn entry(level: AlertLevel, timestamp: i64, origin: &str, message: &str) -> LogEntry {
    LogEntry {
        timestamp,
        level,
        source: "s".to_string(),
        origin: origin.to_string(),
        message: message.to_string(),
    }
}

#[test]
fn plan_read_cases() {
    assert_eq!(plan_read(&FileTailState::default(), 10, 1), ReadStep::Tail);
    assert_eq!(plan_read(&state(5, 0, 1), 10, 1), ReadStep::Tail);
    assert_eq!(plan_read(&state(7, 7, 1), 6, 2), ReadStep::TailAfterTruncation);
    assert_eq!(plan_read(&state(7, 7, 1), 7, 1), ReadStep::Unchanged);
    assert_eq!(plan_read(&state(7, 7, 1), 7, 2), ReadStep::FromOffset(7));
    assert_eq!(plan_read(&state(7, 7, 1), 19, 2), ReadStep::FromOffset(7));
}

#[test]
fn last_lines_keep_the_tail() {
    let content = Some("a\nb\r\nc\n".to_string());
    assert_eq!(last_lines(&content, 2), vec!["b".to_string(), "c".to_string()]);
    assert_eq!(last_lines(&content, 10).len(), 3);
    assert!(last_lines(&None, 10).is_empty());
    let kept = keep_last_lines(vec!["1".to_string(), "2".to_string(), "3".to_string()], 1);
    assert_eq!(kept, vec!["3".to_string()]);
}

#[test]
fn tail_read_yields_only_new_lines() {
    let path = "/tmp/app.log".to_string();
    let mut states = TailStates::new();
    let mut refresh = TailRefresh::default();

    let candidates = vec![FileCandidate {
        path: path.clone(),
        modified_nanos: 1_000_000_000,
        file_size: 6,
        modified_ts: 1,
        is_file: true,
    }];
    let targets = choose_tail_files(candidates, &states, 0, 4);
    assert_eq!(targets.len(), 1);
    assert!(targets[0].active);
    let previous = states.get(&path).unwrap_or_default();
    let step = plan_read(&previous, 6, 1);
    assert_eq!(step, ReadStep::Tail);
    let result = finish_read(step, ReadOutcome::Whole(Some("first\n".to_string())), 6, 1, 20);
    record_read(&mut refresh, &mut states, &targets[0], result);
    assert_eq!(refresh.entries.len(), 1);
    assert_eq!(states.get(&path).unwrap().offset, 6);

    let mut second = TailRefresh::default();
    let candidates = vec![FileCandidate {
        path: path.clone(),
        modified_nanos: 2_000_000_000,
        file_size: 19,
        modified_ts: 2,
        is_file: true,
    }];
    let targets = choose_tail_files(candidates, &states, 0, 4);
    let previous = states.get(&path).unwrap();
    let step = plan_read(&previous, 19, 2);
    assert_eq!(step, ReadStep::FromOffset(6));
    let outcome = ReadOutcome::Appended(vec!["second\n".to_string(), "third\r\n".to_string()]);
    let result = finish_read(step, outcome, 19, 2, 20);
    record_read(&mut second, &mut states, &targets[0], result);
    let messages: Vec<&str> = second.entries.iter().map(|e| e.message.as_str()).collect();
    assert!(messages.contains(&"second"));
    assert!(messages.contains(&"third"));
    assert!(!messages.contains(&"first"));
    assert_eq!(second.rotated_files, 0);

    let again = plan_read(&states.get(&path).unwrap(), 19, 2);
    assert_eq!(again, ReadStep::Unchanged);
}

#[test]
fn tail_detects_truncation() {
    let path = "/tmp/rotate.log".to_string();
    let mut states = TailStates::new();
    states.insert(path.clone(), state(7, 7, 1));
    let candidates = vec![FileCandidate {
        path: path.clone(),
        modified_nanos: 5,
        file_size: 6,
        modified_ts: 2,
        is_file: true,
    }];
    let targets = choose_tail_files(candidates, &states, 0, 4);
    let step = plan_read(&states.get(&path).unwrap(), 6, 2);
    assert_eq!(step, ReadStep::TailAfterTruncation);
    let result = finish_read(step, ReadOutcome::Whole(Some("after\n".to_string())), 6, 2, 20);
    assert!(result.rotated);
    let mut refresh = TailRefresh::default();
    record_read(&mut refresh, &mut states, &targets[0], result);
    assert_eq!(refresh.rotated_files, 1);
    assert!(refresh.entries.iter().any(|e| e.message == "after"));
    assert_eq!(refresh.active_files, vec![path.clone()]);
}

#[test]
fn failed_open_keeps_offset_and_failed_seek_counts_rotation() {
    let r = finish_read(ReadStep::FromOffset(7), ReadOutcome::OpenFailed, 20, 3, 10);
    assert!(r.lines.is_empty());
    assert_eq!(r.state.offset, 7);
    assert_eq!(r.state.file_size, 20);
    assert!(!r.rotated);
    let s = finish_read(ReadStep::FromOffset(7), ReadOutcome::SeekFailed(Some("x\ny\n".to_string())), 20, 3, 10);
    assert!(s.rotated);
    assert_eq!(s.lines, vec!["x".to_string(), "y".to_string()]);
    assert_eq!(s.state.offset, 20);
    let n = finish_read(ReadStep::Unchanged, ReadOutcome::Nothing, 20, 3, 10);
    assert!(n.lines.is_empty());
    assert_eq!(n.state.offset, 20);
}

#[test]
fn appended_reads_keep_last_lines() {
    let raw = vec!["1\n".to_string(), "2\n".to_string(), "3".to_string()];
    let r = finish_read(ReadStep::FromOffset(1), ReadOutcome::Appended(raw), 9, 1, 2);
    assert_eq!(r.lines, vec!["2".to_string(), "3".to_string()]);
}

#[test]
fn choose_tail_files_filters_and_orders() {
    let mut states = TailStates::new();
    states.insert("/b".to_string(), state(10, 10, 5));
    let candidates = vec![
        FileCandidate { path: "/a".to_string(), modified_nanos: 100, file_size: 1, modified_ts: 1, is_file: true },
        FileCandidate { path: "/b".to_string(), modified_nanos: 300, file_size: 10, modified_ts: 5, is_file: true },
        FileCandidate { path: "/c".to_string(), modified_nanos: 200, file_size: 1, modified_ts: 1, is_file: true },
        FileCandidate { path: "/dir".to_string(), modified_nanos: 500, file_size: 0, modified_ts: 1, is_file: false },
        FileCandidate { path: "/old".to_string(), modified_nanos: 10, file_size: 1, modified_ts: 1, is_file: true },
    ];
    let targets = choose_tail_files(candidates, &states, 50, 3);
    let paths: Vec<&str> = targets.iter().map(|t| t.path.as_str()).collect();
    assert_eq!(paths, vec!["/c", "/a", "/b"]);
    assert!(targets[0].active && targets[1].active);
    assert!(!targets[2].active);
    let capped = choose_tail_files(
        vec![FileCandidate { path: "/x".to_string(), modified_nanos: 1, file_size: 1, modified_ts: 1, is_file: true }],
        &states,
        0,
        0,
    );
    assert!(capped.is_empty());
}

#[test]
fn tail_states_store_one_position_per_path() {
    let mut states = TailStates::new();
    assert!(states.get("/a").is_none());
    states.insert("/a".to_string(), state(1, 1, 1));
    states.insert("/b".to_string(), state(2, 2, 2));
    states.insert("/a".to_string(), state(3, 3, 3));
    assert_eq!(states.get("/a").unwrap().offset, 3);
    assert_eq!(states.get("/b").unwrap().offset, 2);
    states.retain_paths(&vec!["/b".to_string(), "/zzz".to_string()]);
    assert!(states.get("/a").is_none());
    assert_eq!(states.get("/b").unwrap().offset, 2);
    let pairs = states.into_pairs();
    assert_eq!(pairs.len(), 1);
    assert_eq!(pairs[0].0, "/b");
}

#[test]
fn blank_lines_make_no_entries() {
    let mut states = TailStates::new();
    let mut refresh = TailRefresh::default();
    let targets = choose_tail_files(
        vec![FileCandidate { path: "/l.log".to_string(), modified_nanos: 1, file_size: 9, modified_ts: 4, is_file: true }],
        &states,
        0,
        1,
    );
    let result = finish_read(ReadStep::Tail, ReadOutcome::Whole(Some("  x  \n   \n\ny\n".to_string())), 9, 4, 10);
    record_read(&mut refresh, &mut states, &targets[0], result);
    let messages: Vec<&str> = refresh.entries.iter().map(|e| e.message.as_str()).collect();
    assert_eq!(messages, vec!["x", "y"]);
    assert!(refresh.entries.iter().all(|e| e.timestamp == 4 && e.origin == "/l.log"));
}

#[test]
fn entries_sort_by_severity_then_time_then_origin() {
    let sorted = sort_entries(vec![
        entry(AlertLevel::Info, 10, "b", "1"),
        entry(AlertLevel::Critical, 1, "a", "2"),
        entry(AlertLevel::Warning, 5, "a", "3"),
        entry(AlertLevel::Info, 10, "a", "4"),
        entry(AlertLevel::Info, 20, "z", "5"),
        entry(AlertLevel::Info, 10, "a", "6"),
    ]);
    let order: Vec<&str> = sorted.iter().map(|e| e.message.as_str()).collect();
    assert_eq!(order, vec!["2", "3", "5", "4", "6", "1"]);
}

#[test]
fn dedup_paths_drops_adjacent_repeats_only() {
    let paths = vec![
        "/var/log/a.log".to_string(),
        "/var/log/a.log".to_string(),
        "/var/log/b.log".to_string(),
        "/var/log/a.log".to_string(),
    ];
    assert_eq!(
        dedup_paths(paths),
        vec!["/var/log/a.log".to_string(), "/var/log/b.log".to_string(), "/var/log/a.log".to_string()]
    );
    assert_eq!(dedup_paths(vec!["/x//y".to_string(), "/x/y".to_string()]), vec!["/x//y".to_string()]);
    assert_eq!(dedup_paths(Vec::new()), Vec::<String>::new());
}
