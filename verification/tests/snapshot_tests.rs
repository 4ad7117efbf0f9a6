use projector::snapshot::{DiffField, ProjectSnapshot, PruneError, ScanSnapshot, SnapshotStore};

fn make_project(path: &str, health: u8, dirty: bool, loc: u32, unpushed: u32) -> ProjectSnapshot {
    let now = chrono::Utc::now().timestamp();
    ProjectSnapshot {
        path: path.to_string(),
        project_type: "Rust".to_string(),
        git_branch: "main".to_string(),
        is_dirty: dirty,
        unpushed_commits: unpushed,
        last_commit_date: now,
        last_modified_date: now,
        lines_of_code: loc,
        health_score: health,
    }
}

fn make_scan(projects: Vec<ProjectSnapshot>) -> ScanSnapshot {
    ScanSnapshot { timestamp: chrono::Utc::now().timestamp(), scanned_path: ".".to_string(), projects }
}

fn names(v: &[&str]) -> Vec<String> {
    v.iter().map(|s| s.to_string()).collect()
}

#[test]
fn test_diff_new_project() {
    let a = make_project("proj_a", 100, false, 500, 0);
    let latest = make_scan(vec![a]);
    let prev = make_scan(vec![]);
    let diffs = SnapshotStore::diff(&latest, &prev);
    assert_eq!(diffs.len(), 1);
    assert_eq!(diffs[0].field, DiffField::Project);
    assert_eq!(diffs[0].new_value, "new");
    assert!(diffs[0].old_value.is_empty());
}

#[test]
fn test_diff_removed_project() {
    let a = make_project("proj_a", 100, false, 500, 0);
    let latest = make_scan(vec![]);
    let prev = make_scan(vec![a]);
    let diffs = SnapshotStore::diff(&latest, &prev);
    assert_eq!(diffs.len(), 1);
    assert_eq!(diffs[0].field, DiffField::Project);
    assert_eq!(diffs[0].old_value, "removed");
    assert!(diffs[0].new_value.is_empty());
}

#[test]
fn test_diff_health_change() {
    let a_old = make_project("proj_a", 80, false, 500, 0);
    let a_new = make_project("proj_a", 100, false, 500, 0);
    let latest = make_scan(vec![a_new]);
    let prev = make_scan(vec![a_old]);
    let diffs = SnapshotStore::diff(&latest, &prev);
    assert_eq!(diffs.len(), 1);
    assert_eq!(diffs[0].field, DiffField::HealthScore);
    assert_eq!(diffs[0].old_value, "80");
    assert_eq!(diffs[0].new_value, "100");
}

#[test]
fn test_diff_dirty_change() {
    let a_old = make_project("proj_a", 100, false, 500, 0);
    let a_new = make_project("proj_a", 90, true, 500, 0);
    let latest = make_scan(vec![a_new]);
    let prev = make_scan(vec![a_old]);
    let diffs = SnapshotStore::diff(&latest, &prev);
    assert_eq!(diffs.len(), 2);
    assert!(diffs.iter().any(|d| d.field == DiffField::IsDirty));
    assert!(diffs.iter().any(|d| d.field == DiffField::HealthScore));
}

#[test]
fn test_diff_loc_change() {
    let a_old = make_project("proj_a", 100, false, 500, 0);
    let a_new = make_project("proj_a", 100, false, 600, 0);
    let latest = make_scan(vec![a_new]);
    let prev = make_scan(vec![a_old]);
    let diffs = SnapshotStore::diff(&latest, &prev);
    assert_eq!(diffs.len(), 1);
    assert_eq!(diffs[0].field, DiffField::LinesOfCode);
}

#[test]
fn test_diff_no_changes() {
    let a = make_project("proj_a", 100, false, 500, 0);
    let latest = make_scan(vec![a.copy()]);
    let prev = make_scan(vec![a]);
    let diffs = SnapshotStore::diff(&latest, &prev);
    assert!(diffs.is_empty());
}

#[test]
fn test_diff_multiple_projects() {
    let a = make_project("proj_a", 100, false, 500, 0);
    let b = make_project("proj_b", 80, true, 200, 3);
    let c = make_project("proj_c", 70, false, 100, 0);
    let prev = make_scan(vec![a, b]);
    let new_b = make_project("proj_b", 85, false, 200, 3);
    let latest = make_scan(vec![new_b, c]);
    let diffs = SnapshotStore::diff(&latest, &prev);
    // removed a (1) + b health_score + b is_dirty (2) + new c (1) = 4
    assert_eq!(diffs.len(), 4);
}

#[test]
fn diff_reports_fields_in_order_with_their_values() {
    let mut old = make_project("p", 70, false, 10, 1);
    old.git_branch = "dev".to_string();
    let mut new = make_project("p", 75, true, 12, 2);
    new.project_type = "Go".to_string();
    let diffs = SnapshotStore::diff(&make_scan(vec![new]), &make_scan(vec![old]));
    let got: Vec<(&str, &str, &str)> =
        diffs.iter().map(|d| (d.field.name(), d.old_value.as_str(), d.new_value.as_str())).collect();
    assert_eq!(
        got,
        vec![
            ("health_score", "70", "75"),
            ("is_dirty", "false", "true"),
            ("lines_of_code", "10", "12"),
            ("unpushed_commits", "1", "2"),
            ("git_branch", "dev", "main"),
            ("project_type", "Rust", "Go"),
        ]
    );
}

#[test]
fn diff_of_a_snapshot_with_itself_is_empty() {
    let s = make_scan(vec![make_project("a", 1, true, 2, 3), make_project("b", 4, false, 5, 6)]);
    assert!(SnapshotStore::diff(&s, &s).is_empty());
}

#[test]
fn snapshot_file_is_named_by_its_time() {
    assert_eq!(SnapshotStore::file_name(0), Some("19700101_000000.json".to_string()));
    assert_eq!(SnapshotStore::file_name(1_700_000_000), Some("20231114_221320.json".to_string()));
    assert_eq!(SnapshotStore::file_name(i64::MAX), None);
}

#[test]
fn snapshot_files_are_the_json_files_oldest_first() {
    let files = SnapshotStore::snapshot_files(&names(&[
        "20240102_000000.json",
        "notes.txt",
        ".json",
        "20231231_235959.json",
        "20240101_120000.json",
    ]));
    assert_eq!(files, names(&["20231231_235959.json", "20240101_120000.json", "20240102_000000.json"]));
}

#[test]
fn pick_counts_back_from_the_newest() {
    let dir = names(&["b.json", "a.json", "c.json"]);
    assert_eq!(SnapshotStore::pick(&dir, 0), Some("c.json".to_string()));
    assert_eq!(SnapshotStore::pick(&dir, 1), Some("b.json".to_string()));
    assert_eq!(SnapshotStore::pick(&dir, 3), None);
    assert_eq!(SnapshotStore::pick(&vec![], 0), None);
}

#[test]
fn test_subcmd_snapshot_prune_keep_zero_errors() {
    let result = SnapshotStore::prune_plan(&names(&["a.json"]), 0);
    assert!(result.is_err());
    assert_eq!(result.unwrap_err().message(), "--keep must be at least 1");
}

#[test]
fn prune_removes_the_oldest_beyond_keep() {
    let dir = names(&["3.json", "1.json", "4.json", "2.json", "x.txt"]);
    assert_eq!(SnapshotStore::prune_plan(&dir, 1).unwrap(), names(&["1.json", "2.json", "3.json"]));
    assert_eq!(SnapshotStore::prune_plan(&dir, 3).unwrap(), names(&["1.json"]));
    assert!(SnapshotStore::prune_plan(&dir, 4).unwrap().is_empty());
    assert!(SnapshotStore::prune_plan(&dir, 30).unwrap().is_empty());
    assert_eq!(SnapshotStore::prune_plan(&dir, 0).unwrap_err(), PruneError::KeepTooSmall);
}

#[test]
fn snapshots_dir_is_below_home() {
    assert_eq!(SnapshotStore::snapshots_dir(Some("/h")), "/h/.projector/snapshots");
}
