use projector::analyzer::{
    branch_or_unknown, commit_date, commit_stats, compute_health_score, compute_stats, file_type_distribution,
    is_git_repo, is_skipped_dir, line_count, modified_date, project_snapshot, tally_extensions,
    total_lines, CommitRecord, GitHealth, ProjectType,
};
use projector::snapshot::{ProjectSnapshot, ScanSnapshot};

fn now() -> i64 {
    chrono::Utc::now().timestamp()
}

fn names(v: &[&str]) -> Vec<String> {
    v.iter().map(|s| s.to_string()).collect()
}

fn project(path: &str, ptype: &str, dirty: bool, loc: u32, health: u8, t: i64) -> ProjectSnapshot {
    ProjectSnapshot {
        path: path.to_string(),
        project_type: ptype.to_string(),
        git_branch: "main".to_string(),
        is_dirty: dirty,
        unpushed_commits: 0,
        last_commit_date: t,
        last_modified_date: t,
        lines_of_code: loc,
        health_score: health,
    }
}

#[test]
fn test_health_score_perfect() {
    let now = now();
    let score = compute_health_score(false, 0, now, now, 500, 90, now);
    assert_eq!(score, 100);
}

#[test]
fn test_health_score_dirty() {
    let now = now();
    let score = compute_health_score(true, 0, now, now, 500, 90, now);
    assert_eq!(score, 90);
}

#[test]
fn test_health_score_unpushed_commits() {
    let now = now();
    let score = compute_health_score(false, 5, now, now, 500, 90, now);
    assert_eq!(score, 95);
}

#[test]
fn test_health_score_stale() {
    let now = now();
    let old = 0;
    let score = compute_health_score(false, 0, old, now, 500, 90, now);
    assert!(score < 100);
    assert_eq!(score, 85);
}

#[test]
fn test_health_score_floor() {
    let old = 0;
    let score = compute_health_score(true, 200, old, old, 50, 30, now());
    assert_eq!(score, 0);
}

#[test]
fn test_health_score_small_project() {
    let now = now();
    let score = compute_health_score(false, 0, now, now, 50, 90, now);
    assert_eq!(score, 95);
}

#[test]
fn health_score_counts_every_deduction() {
    let now = 100 * 86400;
    // stale (100 days >= 90), dirty, 12 unpushed (10 points), modified 100
    // days ago, small: 100 - 15 - 10 - 10 - 10 - 5
    assert_eq!(compute_health_score(true, 12, 0, 0, 99, 90, now), 50);
    // a day short of each threshold deducts nothing but the unpushed commits
    assert_eq!(compute_health_score(false, 4, now - 89 * 86400, now - 59 * 86400, 100, 90, now), 100);
    assert_eq!(compute_health_score(false, 9, now, now, 100, 90, now), 95);
}

#[test]
fn health_is_never_above_a_perfect_score() {
    let now = 1_000_000;
    for unpushed in [0u32, 1, 4, 5, 99, u32::MAX] {
        let s = compute_health_score(false, unpushed, now, now, 1000, 90, now);
        assert!(s <= 100);
    }
}

#[test]
fn test_project_type_detect_rust() {
    let pt = ProjectType::detect(&names(&["Cargo.toml", "src", "tests"]), &vec![]);
    assert_eq!(pt, ProjectType::Rust);
}

#[test]
fn test_project_type_as_str() {
    assert_eq!(ProjectType::Rust.as_str(), "Rust");
    assert_eq!(ProjectType::JavaScript.as_str(), "JavaScript/TypeScript");
    assert_eq!(ProjectType::Unknown.as_str(), "Unknown");
}

#[test]
fn test_project_type_detect_unknown() {
    let pt = ProjectType::detect(&vec![], &vec![]);
    assert_eq!(pt, ProjectType::Unknown);
}

#[test]
fn marker_files_match_ignoring_case() {
    assert_eq!(ProjectType::detect(&names(&["PACKAGE.JSON"]), &vec![]), ProjectType::JavaScript);
    assert_eq!(ProjectType::detect(&names(&["go.mod", "Cargo.toml"]), &vec![]), ProjectType::Rust);
    assert_eq!(ProjectType::detect(&names(&["setup.py"]), &vec![]), ProjectType::Python);
}

#[test]
fn test_detect_by_extensions_tie_returns_unknown() {
    let counts = tally_extensions(&names(&["rs", "go"]));
    let pt = ProjectType::detect(&names(&["main.rs", "main.go"]), &counts);
    assert_eq!(pt, ProjectType::Unknown);
}

#[test]
fn extensions_decide_when_no_marker_file() {
    let counts = tally_extensions(&names(&["py", "py", "rs", "md"]));
    assert_eq!(ProjectType::detect(&names(&["a.py", "b.py", "c.rs"]), &counts), ProjectType::Python);
}

#[test]
fn test_estimate_loc_iterative() {
    let a = line_count("line1\nline2\n");
    let b = line_count("x\n");
    assert_eq!(total_lines(&vec![a as u32, b as u32]), 3);
}

#[test]
fn line_count_follows_str_lines() {
    assert_eq!(line_count(""), 0);
    assert_eq!(line_count("a"), 1);
    assert_eq!(line_count("a\n\nb"), 3);
    assert_eq!(line_count("\n"), 1);
    assert_eq!(line_count("a\r\nb\r\n"), 2);
}

#[test]
fn test_file_type_distribution_empty_dir() {
    let ftd = file_type_distribution(&vec![]);
    assert!(ftd.groups.is_empty());
    assert_eq!(ftd.total_files, 0);
}

#[test]
fn test_file_type_distribution_with_files() {
    let counts = tally_extensions(&names(&["rs", "rs", "css"]));
    let ftd = file_type_distribution(&counts);
    assert!(!ftd.groups.is_empty());
    let rust_count = ftd.groups.iter().find(|(name, _)| name == "Rust").map(|(_, count)| *count).unwrap_or(0);
    assert_eq!(rust_count, 2);
    assert_eq!(ftd.total_files, 3);
}

#[test]
fn file_type_groups_come_most_files_first_with_other_last_among_equals() {
    let counts = tally_extensions(&names(&["css", "xyz", "xyz", "rs", "md"]));
    let ftd = file_type_distribution(&counts);
    let got: Vec<(String, u64)> = ftd.groups.clone();
    assert_eq!(
        got,
        vec![
            ("Other".to_string(), 2),
            ("Rust".to_string(), 1),
            ("Markdown".to_string(), 1),
            ("Web".to_string(), 1),
        ]
    );
}

#[test]
fn tally_counts_each_extension_in_first_order() {
    let t = tally_extensions(&names(&["md", "rs", "md", "toml", "rs", "md"]));
    assert_eq!(t, vec![("md".to_string(), 3), ("rs".to_string(), 2), ("toml".to_string(), 1)]);
}

#[test]
fn test_compute_stats_empty() {
    let now = now();
    let snapshot = ScanSnapshot { timestamp: now, scanned_path: ".".to_string(), projects: vec![] };
    let stats = compute_stats(&snapshot, 90, now);
    assert_eq!(stats.total_projects, 0);
    let avg_health = if stats.total_projects > 0 { stats.health_total as f64 / stats.total_projects as f64 } else { 0.0 };
    assert_eq!(avg_health, 0.0);
    assert_eq!(stats.health_sorted.len(), 0);
    assert_eq!(stats.total_loc, 0);
}

#[test]
fn test_compute_stats_single_project() {
    let now = now();
    let snapshot = ScanSnapshot {
        timestamp: now,
        scanned_path: ".".to_string(),
        projects: vec![project("/test", "Rust", false, 500, 85, now)],
    };
    let stats = compute_stats(&snapshot, 90, now);
    assert_eq!(stats.total_projects, 1);
    let avg = stats.health_total as f64 / stats.total_projects as f64;
    assert!((avg - 85.0).abs() < 0.001);
    assert_eq!(stats.median_pair, (85, 85));
    assert_eq!(stats.total_loc, 500);
}

#[test]
fn test_compute_stats_multiple_projects() {
    let now = now();
    let snapshot = ScanSnapshot {
        timestamp: now,
        scanned_path: ".".to_string(),
        projects: vec![
            project("/a", "Rust", false, 100, 100, now),
            project("/b", "Python", true, 200, 80, now),
            project("/c", "Rust", false, 300, 60, now),
        ],
    };
    let stats = compute_stats(&snapshot, 90, now);
    assert_eq!(stats.total_projects, 3);
    let avg = stats.health_total as f64 / stats.total_projects as f64;
    assert!((avg - 80.0).abs() < 0.001);
    assert_eq!(stats.median_pair, (80, 80));
    assert_eq!(stats.total_loc, 600);
    let dirty_ratio = stats.dirty_count as f64 / stats.total_projects as f64;
    assert!((dirty_ratio - 1.0 / 3.0).abs() < 0.001);
    assert_eq!(stats.type_distribution, vec![("Rust".to_string(), 2), ("Python".to_string(), 1)]);
    assert_eq!(stats.health_buckets, (2, 1, 0));
    assert_eq!(stats.health_sorted, vec![60, 80, 100]);
    let top: Vec<&str> = stats.top5.iter().map(|p| p.path.as_str()).collect();
    let bottom: Vec<&str> = stats.bottom5.iter().map(|p| p.path.as_str()).collect();
    assert_eq!(top, vec!["/a", "/b", "/c"]);
    assert_eq!(bottom, vec!["/c", "/b", "/a"]);
}

#[test]
fn stats_buckets_add_up_to_the_projects() {
    let now = now();
    let healths = [0u8, 49, 50, 79, 80, 100, 65];
    let projects: Vec<ProjectSnapshot> =
        healths.iter().enumerate().map(|(i, h)| project(&format!("/p{}", i), "Go", false, 10, *h, now)).collect();
    let stats = compute_stats(&ScanSnapshot { timestamp: now, scanned_path: ".".to_string(), projects }, 90, now);
    let (good, fair, poor) = stats.health_buckets;
    assert_eq!(good + fair + poor, stats.total_projects);
    assert_eq!((good, fair, poor), (2, 3, 2));
    assert_eq!(stats.median_pair, (65, 65));
}

#[test]
fn stats_count_stale_projects() {
    let now = now();
    let stats = compute_stats(
        &ScanSnapshot {
            timestamp: now,
            scanned_path: ".".to_string(),
            projects: vec![project("/old", "Go", false, 10, 50, 0), project("/new", "Go", false, 10, 50, now)],
        },
        90,
        now,
    );
    assert_eq!(stats.stale_count, 1);
}

#[test]
fn commit_stats_counts_windows_and_distinct_authors() {
    let now = 400 * 86400;
    let c = |a: Option<&str>, days_ago: i64| CommitRecord { author: a.map(|s| s.to_string()), time: now - days_ago * 86400 };
    let commits = vec![
        c(Some("ann"), 0),
        c(Some("bob"), 30),
        c(Some("ann"), 31),
        c(None, 90),
        c(Some("cid"), 365),
        c(Some("bob"), 366),
    ];
    let st = commit_stats(&commits, now);
    assert_eq!(st.total, 6);
    assert_eq!(st.last_30_days, 2);
    assert_eq!(st.last_90_days, 4);
    assert_eq!(st.last_year, 5);
    assert_eq!(st.authors, 3);
}

#[test]
fn commit_stats_leaves_out_dates_chrono_cannot_represent() {
    let commits = vec![CommitRecord { author: None, time: i64::MIN }];
    let st = commit_stats(&commits, 0);
    assert_eq!(st.total, 1);
    assert_eq!(st.last_year, 0);
}

#[test]
fn repository_facts_default_as_git_shows_them() {
    assert_eq!(branch_or_unknown(None), "unknown");
    assert_eq!(branch_or_unknown(Some("dev")), "dev");
    assert_eq!(commit_date(None), 0);
    assert_eq!(commit_date(Some(1_700_000_000)), 1_700_000_000);
    assert_eq!(commit_date(Some(i64::MAX)), 0);
    assert_eq!(modified_date(None), 0);
    assert_eq!(modified_date(Some(86400)), 86400);
    let g = GitHealth::without_commits();
    assert_eq!(g.branch, "HEAD (no commits)");
    assert_eq!(g.last_commit_date, 0);
}

#[test]
fn project_snapshot_scores_the_project() {
    let now = 1_000 * 86400;
    let git = GitHealth { branch: "main".to_string(), is_dirty: true, unpushed_commits: 0, last_commit_date: now };
    let p = project_snapshot("/w/app", ProjectType::Go, git, now, 500, 90, now);
    assert_eq!(p.path, "/w/app");
    assert_eq!(p.project_type, "Go");
    assert_eq!(p.health_score, 90);
}

#[test]
fn git_repo_and_skipped_directories() {
    let entries = |v: &[(&str, bool)]| v.iter().map(|(n, d)| (n.to_string(), *d)).collect::<Vec<(String, bool)>>();
    assert!(is_git_repo(&entries(&[("src", true), (".git", true)])));
    assert!(!is_git_repo(&entries(&[("src", true), ("git", true)])));
    assert!(!is_git_repo(&entries(&[(".git", false)])));
    assert!(is_skipped_dir(".cache"));
    assert!(is_skipped_dir("node_modules"));
    assert!(is_skipped_dir("target"));
    assert!(!is_skipped_dir("src"));
}

#[test]
fn type_distribution_counts_every_project_once() {
    let now = now();
    let types = ["Rust", "Go", "Rust", "Python", "Go", "Rust"];
    let projects: Vec<ProjectSnapshot> =
        types.iter().enumerate().map(|(i, t)| project(&format!("/p{}", i), t, false, 10, 50, now)).collect();
    let stats = compute_stats(&ScanSnapshot { timestamp: now, scanned_path: ".".to_string(), projects }, 90, now);
    let total: usize = stats.type_distribution.iter().map(|(_, c)| *c).sum();
    assert_eq!(total, stats.total_projects);
    assert_eq!(
        stats.type_distribution,
        vec![("Rust".to_string(), 3), ("Go".to_string(), 2), ("Python".to_string(), 1)]
    );
}

#[test]
fn a_worse_state_never_scores_higher() {
    let now = 500 * 86400;
    let clean = compute_health_score(false, 3, now, now, 50, 90, now);
    let dirty = compute_health_score(true, 3, now, now, 50, 90, now);
    let more_unpushed = compute_health_score(true, 25, now, now, 50, 90, now);
    let older = compute_health_score(true, 25, 0, 0, 50, 90, now);
    assert!(clean >= dirty && dirty >= more_unpushed && more_unpushed >= older);
    assert_eq!((clean, dirty, more_unpushed, older), (95, 85, 60, 35));
}
