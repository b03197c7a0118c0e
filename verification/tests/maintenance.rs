use sysray::maintenance::{
    archive_file_name, check_archive_window, daily_file_name, days_to_seconds, in_archive_window,
    is_expired, is_jsonl_file, is_zip_file, select_files, FileAge, MaintenanceError, Selection,
};

fn file(path: &str, modified_nanos: i128) -> FileAge {
    FileAge { path: path.to_string(), modified_nanos }
}

#[test]
fn archive_window_must_be_open() {
    assert_eq!(check_archive_window(15, 60), Ok(()));
    assert_eq!(check_archive_window(60, 60), Err(MaintenanceError::ArchiveWindowEmpty));
    assert_eq!(check_archive_window(61, 60), Err(MaintenanceError::ArchiveWindowEmpty));
    assert_eq!(
        MaintenanceError::ArchiveWindowEmpty.message(),
        "--min-age-days must be lower than --max-age-days"
    );
}

#[test]
fn days_convert_to_seconds_saturating() {
    assert_eq!(days_to_seconds(0), 0);
    assert_eq!(days_to_seconds(15), 1_296_000);
    assert_eq!(days_to_seconds(u64::MAX), u64::MAX);
}

#[test]
fn age_predicates() {
    assert!(is_expired(1, 2));
    assert!(!is_expired(2, 2));
    assert!(in_archive_window(5, 10, 0));
    assert!(in_archive_window(10, 10, 10));
    assert!(!in_archive_window(11, 10, 0));
    assert!(!in_archive_window(-1, 10, 0));
}

#[test]
fn file_kinds_by_extension() {
    assert!(is_jsonl_file("/data/2024-01-01.jsonl"));
    assert!(!is_jsonl_file("/data/2024-01-01.json"));
    assert!(!is_jsonl_file("/data/.jsonl"));
    assert!(is_zip_file("/arch/sysray-archive-2024-01-01.zip"));
    assert!(!is_zip_file("/arch/zip"));
}

#[test]
fn file_names() {
    assert_eq!(daily_file_name("2024-01-31"), "2024-01-31.jsonl");
    assert_eq!(archive_file_name("2024-01-31"), "sysray-archive-2024-01-31.zip");
}

#[test]
fn selections_take_the_right_files() {
    let files = vec![
        file("/d/a.jsonl", 10),
        file("/d/b.jsonl", 50),
        file("/d/c.txt", 10),
        file("/d/d.zip", 10),
        file("/d/e.jsonl", 100),
    ];
    assert_eq!(select_files(&files, Selection::ExpiredSnapshots(60)), vec!["/d/a.jsonl", "/d/b.jsonl"]);
    assert_eq!(select_files(&files, Selection::ArchiveWindow(60, 20)), vec!["/d/b.jsonl"]);
    assert_eq!(select_files(&files, Selection::ExpiredArchives(60)), vec!["/d/d.zip"]);
    assert!(select_files(&Vec::new(), Selection::ExpiredArchives(60)).is_empty());
}

#[test]
fn archived_files_are_not_expired_archives() {
    let (min_cut, max_cut) = (100, 20);
    for modified in [20, 50, 100] {
        assert!(in_archive_window(modified, min_cut, max_cut));
        assert!(!is_expired(modified, max_cut));
    }
    assert!(days_to_seconds(15) <= days_to_seconds(60));
}
