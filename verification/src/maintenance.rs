//! Retention and archiving rules of the daily snapshot files.
use vstd::prelude::*;
use crate::external::{extension_of, path_extension};
use crate::text::{append_str, chars_eq, chars_of};

verus! {

/// Why a maintenance request is refused.
#[derive(Debug, Clone, Copy, PartialEq, Eq, Structural)]
pub enum MaintenanceError {
    /// The archive window is empty: the minimum age is not below the maximum.
    ArchiveWindowEmpty,
}

impl MaintenanceError {
    /// The text that explains the refusal.
    pub fn message(&self) -> (r: &'static str)
        ensures
            r == "--min-age-days must be lower than --max-age-days",
    {
        "--min-age-days must be lower than --max-age-days"
    }
}

/// Archiving takes files at least `min_age_days` and at most `max_age_days`
/// old; the minimum must be lower than the maximum.
pub fn check_archive_window(min_age_days: u64, max_age_days: u64) -> (r: Result<(), MaintenanceError>)
    ensures
        r is Ok <==> min_age_days < max_age_days,
        r is Err ==> r == Err::<(), MaintenanceError>(MaintenanceError::ArchiveWindowEmpty),
{
    if min_age_days >= max_age_days {
        Err(MaintenanceError::ArchiveWindowEmpty)
    } else {
        Ok(())
    }
}

/// Seconds in a number of days, saturating at the largest `u64`.
pub fn days_to_seconds(days: u64) -> (r: u64)
    ensures
        r == (if days * 86_400 <= u64::MAX {
            days * 86_400
        } else {
            u64::MAX as int
        }),
{
    match days.checked_mul(86_400) {
        Some(v) => v,
        None => u64::MAX,
    }
}

/// A daily file is pruned when modified before the retention cutoff.
pub open spec fn expired(modified: i128, cutoff: i128) -> bool {
    modified < cutoff
}

/// The file was modified before the cutoff.
pub fn is_expired(modified_nanos: i128, cutoff_nanos: i128) -> (r: bool)
    ensures
        r == expired(modified_nanos, cutoff_nanos),
{
    modified_nanos < cutoff_nanos
}

/// A daily file is archived when it is at least as old as the minimum age
/// and no older than the maximum age.
pub open spec fn in_window(modified: i128, min_age_cutoff: i128, max_age_cutoff: i128) -> bool {
    modified <= min_age_cutoff && modified >= max_age_cutoff
}

/// The file was modified between the two cutoffs.
pub fn in_archive_window(modified_nanos: i128, min_age_cutoff: i128, max_age_cutoff: i128) -> (r:
    bool)
    ensures
        r == in_window(modified_nanos, min_age_cutoff, max_age_cutoff),
{
    modified_nanos <= min_age_cutoff && modified_nanos >= max_age_cutoff
}

fn has_extension(path: &str, ext: &str) -> (r: bool)
    ensures
        r == (path_extension(path@) == Some(ext@)),
{
    match extension_of(path) {
        Some(e) => chars_eq(&chars_of(e.as_str()), &chars_of(ext)),
        None => false,
    }
}

/// The daily snapshot files are the `.jsonl` files.
pub fn is_jsonl_file(path: &str) -> (r: bool)
    ensures
        r == (path_extension(path@) == Some("jsonl"@)),
{
    has_extension(path, "jsonl")
}

/// Archives are the `.zip` files.
pub fn is_zip_file(path: &str) -> (r: bool)
    ensures
        r == (path_extension(path@) == Some("zip"@)),
{
    has_extension(path, "zip")
}

/// A file of a directory listing with its modification time, in nanoseconds
/// from the Unix epoch.
#[derive(Debug)]
pub struct FileAge {
    pub path: String,
    pub modified_nanos: i128,
}

/// Which files of a listing a maintenance step takes.
#[derive(Debug, Clone, Copy)]
pub enum Selection {
    /// Snapshot files modified before the cutoff.
    ExpiredSnapshots(i128),
    /// Snapshot files inside the archive window.
    ArchiveWindow(i128, i128),
    /// Archives modified before the cutoff.
    ExpiredArchives(i128),
}

pub open spec fn selects(sel: Selection, f: FileAge) -> bool {
    match sel {
        Selection::ExpiredSnapshots(cutoff) => path_extension(f.path@) == Some("jsonl"@) && expired(
            f.modified_nanos,
            cutoff,
        ),
        Selection::ArchiveWindow(min_cut, max_cut) => path_extension(f.path@) == Some("jsonl"@)
            && in_window(f.modified_nanos, min_cut, max_cut),
        Selection::ExpiredArchives(cutoff) => path_extension(f.path@) == Some("zip"@) && expired(
            f.modified_nanos,
            cutoff,
        ),
    }
}

/// The paths of the selected files, in listing order.
pub open spec fn selected_paths(files: Seq<FileAge>, sel: Selection) -> Seq<Seq<char>> {
    files.filter(|f: FileAge| selects(sel, f)).map_values(|f: FileAge| f.path@)
}

fn selects_exec(sel: Selection, f: &FileAge) -> (r: bool)
    ensures
        r == selects(sel, *f),
{
    match sel {
        Selection::ExpiredSnapshots(cutoff) => is_jsonl_file(f.path.as_str()) && is_expired(
            f.modified_nanos,
            cutoff,
        ),
        Selection::ArchiveWindow(min_cut, max_cut) => is_jsonl_file(f.path.as_str())
            && in_archive_window(f.modified_nanos, min_cut, max_cut),
        Selection::ExpiredArchives(cutoff) => is_zip_file(f.path.as_str()) && is_expired(
            f.modified_nanos,
            cutoff,
        ),
    }
}

/// The paths of the files of a listing that a maintenance step takes: the
/// snapshots to prune, the snapshots to archive, or the archives to remove.
pub fn select_files(files: &Vec<FileAge>, sel: Selection) -> (r: Vec<String>)
    ensures
        r@.map_values(|p: String| p@) == selected_paths(files@, sel),
{
    let ghost keep = |f: FileAge| selects(sel, f);
    let mut r: Vec<String> = Vec::new();
    for i in 0..files.len()
        invariant
            keep == (|f: FileAge| selects(sel, f)),
            r@.map_values(|p: String| p@) == files@.take(i as int).filter(keep).map_values(
                |f: FileAge| f.path@,
            ),
    {
        let ghost before = files@.take(i as int).filter(keep);
        let ghost r_old = r@;
        assert(files@.take(i + 1).drop_last() == files@.take(i as int));
        assert(files@.take(i + 1).last() == files@[i as int]);
        reveal_with_fuel(Seq::filter, 1);
        if selects_exec(sel, &files[i]) {
            r.push(files[i].path.clone());
            assert(files@.take(i + 1).filter(keep) == before.push(files@[i as int]));
            assert(r@.map_values(|p: String| p@) =~= r_old.map_values(|p: String| p@).push(
                files@[i as int].path@,
            ));
            assert(before.push(files@[i as int]).map_values(|f: FileAge| f.path@) =~= before.map_values(
                |f: FileAge| f.path@,
            ).push(files@[i as int].path@));
            assert(r@.map_values(|p: String| p@) =~= files@.take(i + 1).filter(keep).map_values(
                |f: FileAge| f.path@,
            ));
        } else {
            assert(files@.take(i + 1).filter(keep) == before);
        }
    }
    assert(files@.take(files.len() as int) == files@);
    r
}

/// The name of the day's snapshot file: the date and `.jsonl`.
pub fn daily_file_name(date: &str) -> (r: String)
    ensures
        r@ == date@ + ".jsonl"@,
{
    let mut r = String::new();
    append_str(&mut r, date);
    append_str(&mut r, ".jsonl");
    r
}

/// The name of the day's archive: `sysray-archive-`, the date and `.zip`.
pub fn archive_file_name(date: &str) -> (r: String)
    ensures
        r@ == "sysray-archive-"@ + date@ + ".zip"@,
{
    let mut r = String::new();
    append_str(&mut r, "sysray-archive-");
    append_str(&mut r, date);
    append_str(&mut r, ".zip");
    r
}

/// A longer retention in days never gives fewer seconds.
pub proof fn lemma_days_to_seconds_monotone(a: u64, b: u64)
    requires
        a <= b,
    ensures
        (if a * 86_400 <= u64::MAX {
            a * 86_400
        } else {
            u64::MAX as int
        }) <= (if b * 86_400 <= u64::MAX {
            b * 86_400
        } else {
            u64::MAX as int
        }),
{
    assert(a * 86_400 <= b * 86_400) by (nonlinear_arith)
        requires
            a <= b,
    ;
}

/// A snapshot taken for the archive is never one that archive retention
/// (which uses the maximum-age cutoff) would count as expired.
pub proof fn lemma_archived_not_expired(modified: i128, min_age_cutoff: i128, max_age_cutoff: i128)
    requires
        in_window(modified, min_age_cutoff, max_age_cutoff),
    ensures
        !expired(modified, max_age_cutoff),
{
}

/// A maintenance step takes exactly the files of the listing it selects, in
/// listing order: for an archive run, the `.jsonl` files inside the window and
/// then the `.zip` files older than the maximum-age cutoff.
pub proof fn lemma_selection_exact(files: Seq<FileAge>, sel: Selection, path: Seq<char>)
    ensures
        selected_paths(files, sel).contains(path) <==> exists|i: int|
            0 <= i < files.len() && (#[trigger] files[i]).path@ == path && selects(sel, files[i]),
        sel matches Selection::ArchiveWindow(lo, hi) ==> (selected_paths(files, sel).contains(path)
            <==> exists|i: int|
            0 <= i < files.len() && (#[trigger] files[i]).path@ == path && path_extension(path)
                == Some("jsonl"@) && in_window(files[i].modified_nanos, lo, hi)),
        sel matches Selection::ExpiredArchives(cut) ==> (selected_paths(files, sel).contains(path)
            <==> exists|i: int|
            0 <= i < files.len() && (#[trigger] files[i]).path@ == path && path_extension(path)
                == Some("zip"@) && expired(files[i].modified_nanos, cut)),
{
    broadcast use vstd::seq_lib::group_filter_ensures;

    let keep = |f: FileAge| selects(sel, f);
    let kept = files.filter(keep);
    let names = kept.map_values(|f: FileAge| f.path@);
    if names.contains(path) {
        let k = choose|k: int| 0 <= k < names.len() && names[k] == path;
        assert(keep(kept[k]));
        files.lemma_filter_contains_rev(keep, kept[k]);
        let i = choose|i: int| 0 <= i < files.len() && files[i] == kept[k];
        assert(files[i].path@ == path && selects(sel, files[i]));
    }
    if exists|i: int| 0 <= i < files.len() && (#[trigger] files[i]).path@ == path && selects(sel, files[i]) {
        let i = choose|i: int| 0 <= i < files.len() && (#[trigger] files[i]).path@ == path && selects(sel, files[i]);
        assert(keep(files[i]));
        assert(kept.contains(files[i]));
        let k = choose|k: int| 0 <= k < kept.len() && kept[k] == files[i];
        assert(names[k] == path);
    }
}

/// What each maintenance step takes, by extension and age: retention takes
/// the `.jsonl` files modified strictly before its cutoff; an archive run the
/// `.jsonl` files modified no later than the minimum-age cutoff and no
/// earlier than the maximum-age cutoff (both ends included); archive
/// retention the `.zip` files modified strictly before its cutoff.
pub proof fn lemma_selection_rules(sel: Selection, f: FileAge)
    ensures
        sel matches Selection::ExpiredSnapshots(c) ==> (selects(sel, f) <==> (path_extension(f.path@)
            == Some("jsonl"@) && f.modified_nanos < c)),
        sel matches Selection::ArchiveWindow(lo, hi) ==> (selects(sel, f) <==> (path_extension(
            f.path@,
        ) == Some("jsonl"@) && hi <= f.modified_nanos && f.modified_nanos <= lo)),
        sel matches Selection::ExpiredArchives(c) ==> (selects(sel, f) <==> (path_extension(f.path@)
            == Some("zip"@) && f.modified_nanos < c)),
{
}

} // verus!
