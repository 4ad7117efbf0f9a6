use projector::analyzer::{CommitRecord, ProjectType};
use projector::display::{format_day, format_moment, health_colored, parse_format, type_colored, OutputFormat};
use projector::snapshot::{ProjectSnapshot, ScanSnapshot};
use projector::subcmd::activity::{
    activity_order, activity_totals, author_label, last_commit_label, recent_commits, HeadCommit, ProjectActivity,
};
use projector::subcmd::deps::{
    count_projects, count_unique, deps_of_project, ecosystem_colored, ecosystem_label, find_shared,
    project_summaries, DependencyEntry,
};
use projector::subcmd::inspect::{basic_snapshot, inspected_snapshot};
use projector::subcmd::list::{listed_projects, listing_header, modified_label, tag_suffix, type_label};
use projector::subcmd::orphans::{classify_orphans, RepoLink};
use projector::subcmd::scan::{deduction_reason, health_deductions, join_texts, low_health_projects};
use projector::subcmd::search::{search_projects, SearchError};
use projector::subcmd::trend::{
    enough_for_trend,
    format_x_axis_labels, parse_metric, snapshots_in_range, trend_samples, TrendMetric,
};
use projector::tags::TagsIndex;

const DAY: i64 = 86400;

fn project(path: &str, ptype: &str, health: u8, dirty: bool, loc: u32, last_commit: i64) -> ProjectSnapshot {
    ProjectSnapshot {
        path: path.to_string(),
        project_type: ptype.to_string(),
        git_branch: "main".to_string(),
        is_dirty: dirty,
        unpushed_commits: 0,
        last_commit_date: last_commit,
        last_modified_date: last_commit,
        lines_of_code: loc,
        health_score: health,
    }
}

fn strings(v: &[&str]) -> Vec<String> {
    v.iter().map(|s| s.to_string()).collect()
}

#[test]
fn test_inspect_invalid_format() {
    let result = parse_format(Some("xml"), false);
    assert!(result.is_err());
    assert!(result.unwrap_err().message().contains("Unsupported format"));
}

#[test]
fn formats_each_command_offers() {
    assert_eq!(parse_format(None, false).unwrap(), OutputFormat::Text);
    assert_eq!(parse_format(Some(""), false).unwrap(), OutputFormat::Text);
    assert_eq!(parse_format(Some("json"), false).unwrap(), OutputFormat::Json);
    assert_eq!(parse_format(Some("md"), true).unwrap(), OutputFormat::Markdown);
    assert_eq!(parse_format(Some("md"), false).unwrap_err().message(), "Unsupported format: 'md'. Use 'json'.");
    assert_eq!(
        parse_format(Some("xml"), true).unwrap_err().message(),
        "Unsupported format: 'xml'. Use 'json' or 'md'."
    );
}

#[test]
fn colours_of_scores_and_types() {
    assert_eq!(health_colored(80), "\x1b[32m80/100\x1b[0m");
    assert_eq!(health_colored(79), "\x1b[33m79/100\x1b[0m");
    assert_eq!(health_colored(49), "\x1b[31m49/100\x1b[0m");
    assert_eq!(type_colored("Go"), "\x1b[34mGo\x1b[0m");
    assert_eq!(type_colored("Dart"), "\x1b[37mDart\x1b[0m");
}

#[test]
fn dates_as_chrono_writes_them() {
    assert_eq!(format_day(0), "1970-01-01");
    assert_eq!(format_moment(1_700_000_000), "2023-11-14 22:13:20");
    assert_eq!(format_day(i64::MAX), "unknown");
}

#[test]
fn test_basic_snapshot_construction() {
    let snap = basic_snapshot("/tmp", ProjectType::Unknown, 42);
    assert_eq!(snap.path, "/tmp");
    assert_eq!(snap.project_type, "Unknown");
    assert_eq!(snap.lines_of_code, 42);
    assert_eq!(snap.health_score, 0);
    assert!(!snap.is_dirty);
}

#[test]
fn inspected_snapshot_keeps_the_score() {
    let git = projector::analyzer::GitHealth {
        branch: "dev".to_string(),
        is_dirty: true,
        unpushed_commits: 2,
        last_commit_date: 5,
    };
    let snap = inspected_snapshot("/w", ProjectType::Go, git, 77, 9);
    assert_eq!(snap.git_branch, "dev");
    assert_eq!(snap.health_score, 77);
    assert_eq!(snap.last_modified_date, 0);
}

#[test]
fn scan_alerts_list_low_scores_lowest_first() {
    let ps = vec![
        project("/a", "Go", 30, false, 500, 0),
        project("/b", "Go", 90, false, 500, 0),
        project("/c", "Go", 10, false, 500, 0),
        project("/d", "Go", 30, false, 500, 0),
    ];
    let low = low_health_projects(&ps, 40);
    let paths: Vec<&str> = low.iter().map(|p| p.path.as_str()).collect();
    assert_eq!(paths, vec!["/c", "/a", "/d"]);
    assert!(low_health_projects(&ps, 0).is_empty());
    assert!(low_health_projects(&ps, 10).is_empty());
}

#[test]
fn deductions_name_their_reasons() {
    let now = 1000 * DAY;
    let d = health_deductions(true, now - 412 * DAY, 50, 90, now);
    assert_eq!(d, strings(&["stale(412d)", "dirty", "loc<100"]));
    assert_eq!(deduction_reason(&d), " (stale(412d), dirty, loc<100)");
    let d = health_deductions(false, now - 800 * DAY, 500, 90, now);
    assert_eq!(d, strings(&["stale(2y)"]));
    assert!(health_deductions(false, now, 500, 90, now).is_empty());
    assert_eq!(deduction_reason(&vec![]), "");
    assert_eq!(join_texts(&strings(&["a", "b", "c"])), "a, b, c");
}

#[test]
fn orphans_have_no_origin_and_no_recent_commit() {
    let now = 1000 * DAY;
    let ps = vec![
        project("/old-local", "Go", 50, false, 1, now - 100 * DAY),
        project("/old-pushed", "Go", 50, false, 1, now - 100 * DAY),
        project("/new-local", "Go", 50, false, 1, now - 90 * DAY),
        project("/plain", "Go", 50, false, 1, 0),
    ];
    let links = vec![
        RepoLink { has_git: true, has_origin: false },
        RepoLink { has_git: true, has_origin: true },
        RepoLink { has_git: true, has_origin: false },
        RepoLink { has_git: false, has_origin: false },
    ];
    let r = classify_orphans(&ps, &links, now, 90);
    assert_eq!(r.orphans, vec![0]);
    assert_eq!(r.non_orphans, vec![1, 2]);
    assert_eq!(r.no_git, vec![3]);
}

fn activity(name: &str, recent: u32, authors: u32) -> ProjectActivity {
    ProjectActivity {
        path: format!("/p/{}", name),
        name: name.to_string(),
        project_type: "Rust".to_string(),
        recent_commits: recent,
        total_commits: 10,
        authors,
        last_commit_date: "x".to_string(),
    }
}

#[test]
fn activity_totals_and_order() {
    let acts = vec![activity("a", 0, 1), activity("b", 5, 2), activity("c", 2, 1), activity("d", 0, 1), activity("e", 5, 1)];
    assert_eq!(activity_totals(&acts), (12, 3));
    let (hot, idle) = activity_order(&acts);
    assert_eq!(hot, vec![1, 4, 2]);
    assert_eq!(idle, vec![0, 3]);
    assert_eq!(author_label(1), "1 author");
    assert_eq!(author_label(3), "3 authors");
    assert_eq!(author_label(0), "0 authors");
}

#[test]
fn recent_commits_count_whole_days() {
    let now = 100 * DAY;
    let commits: Vec<CommitRecord> = [0, 6, 7, 8]
        .iter()
        .map(|d| CommitRecord { author: None, time: now - d * DAY - 1 })
        .collect();
    assert_eq!(recent_commits(&commits, now, 7), 3);
}

#[test]
fn last_commit_labels() {
    let now = 1_700_000_000 + 3 * DAY;
    assert_eq!(last_commit_label(&HeadCommit::NoRepository, now), "unknown");
    assert_eq!(last_commit_label(&HeadCommit::NoCommits, now), "no commits");
    assert_eq!(last_commit_label(&HeadCommit::At(1_700_000_000), now), "2023-11-14 (3d ago)");
    assert_eq!(last_commit_label(&HeadCommit::At(i64::MIN), now), "unknown");
}

#[test]
fn test_trend_no_snapshots() {
    assert!(!enough_for_trend(0));
    assert!(!enough_for_trend(1));
    assert!(enough_for_trend(2));
    assert!(snapshots_in_range(&vec![], 0, None).is_empty());
    assert!(trend_samples(&vec![], &vec![], None, TrendMetric::Health).is_empty());
}

#[test]
fn trend_samples_for_all_projects_and_one() {
    let now = 100 * DAY;
    let snaps = vec![
        ScanSnapshot {
            timestamp: now - 40 * DAY,
            scanned_path: ".".to_string(),
            projects: vec![project("/w/a", "Go", 80, false, 100, 0)],
        },
        ScanSnapshot {
            timestamp: now - 10 * DAY,
            scanned_path: ".".to_string(),
            projects: vec![project("/w/a", "Go", 60, false, 150, 0), project("/w/b", "Go", 90, false, 50, 0)],
        },
        ScanSnapshot { timestamp: now, scanned_path: ".".to_string(), projects: vec![project("/w/b", "Go", 70, false, 5, 0)] },
    ];
    assert_eq!(snapshots_in_range(&snaps, now, Some(30)), vec![1, 2]);
    assert_eq!(snapshots_in_range(&snaps, now, None), vec![0, 1, 2]);
    let all = vec![0usize, 1, 2];
    let health: Vec<(u128, u64)> =
        trend_samples(&snaps, &all, None, TrendMetric::Health).iter().map(|s| (s.total, s.count)).collect();
    assert_eq!(health, vec![(80, 1), (150, 2), (70, 1)]);
    let loc: Vec<(u128, u64)> =
        trend_samples(&snaps, &all, None, parse_metric(Some("loc"))).iter().map(|s| (s.total, s.count)).collect();
    assert_eq!(loc, vec![(100, 1), (200, 1), (5, 1)]);
    let one: Vec<i64> = trend_samples(&snaps, &all, Some("a"), TrendMetric::Loc).iter().map(|s| s.timestamp).collect();
    assert_eq!(one, vec![now - 40 * DAY, now - 10 * DAY]);
    assert_eq!(parse_metric(None), TrendMetric::Health);
    assert_eq!(TrendMetric::Loc.label(), "LOC");
}

#[test]
fn x_axis_labels_put_first_and_last_dates_at_the_edges() {
    let dates = strings(&["2024-01-01", "2024-02-01", "2024-03-15"]);
    let line = format_x_axis_labels(&dates, 24);
    assert_eq!(line, "2024-01-01    2024-03-15");
    assert_eq!(format_x_axis_labels(&dates, 12), "202024-03-15");
    assert_eq!(format_x_axis_labels(&dates, 8), "2024-03-");
    assert_eq!(format_x_axis_labels(&vec![], 10), "");
}

#[test]
fn search_finds_by_name_path_type_or_tag_ignoring_case() {
    let mut tags = TagsIndex::new();
    tags.add_tag("/w/tool", "CLI");
    let ps = vec![
        project("/w/Alpha", "Rust", 1, false, 1, 0),
        project("/w/tool", "Go", 1, false, 1, 0),
        project("/w/web", "JavaScript/TypeScript", 1, false, 1, 0),
    ];
    let hits: Vec<usize> = search_projects(&ps, &tags, "alpha", None).unwrap().iter().map(|h| h.index).collect();
    assert_eq!(hits, vec![0]);
    let hits: Vec<usize> = search_projects(&ps, &tags, "cli", None).unwrap().iter().map(|h| h.index).collect();
    assert_eq!(hits, vec![1]);
    let hits: Vec<usize> = search_projects(&ps, &tags, "SCRIPT", None).unwrap().iter().map(|h| h.index).collect();
    assert_eq!(hits, vec![2]);
    let hits: Vec<usize> = search_projects(&ps, &tags, "/w/", Some("CLI")).unwrap().iter().map(|h| h.index).collect();
    assert_eq!(hits, vec![1]);
    let found = search_projects(&ps, &tags, "tool", None).unwrap();
    assert_eq!(found[0].tags, strings(&["CLI"]));
    match search_projects(&ps, &tags, "  ", None) {
        Err(e) => {
            assert_eq!(e, SearchError::EmptyQuery);
            assert_eq!(e.message(), "Search query cannot be empty");
        },
        Ok(_) => panic!("expected an error"),
    }
}

#[test]
fn listing_with_a_tag() {
    let mut tags = TagsIndex::new();
    tags.add_tag("/w/b", "web");
    let paths = strings(&["/w/a", "/w/b"]);
    assert_eq!(listed_projects(&paths, &tags, Some("web")), strings(&["/w/b"]));
    assert_eq!(listed_projects(&paths, &tags, None), paths);
    assert_eq!(type_label(&ProjectType::Unknown), "\x1b[31mUnknown project\x1b[0m");
    assert_eq!(type_label(&ProjectType::Go), "\x1b[32mGo project\x1b[0m");
    assert_eq!(tag_suffix(&strings(&["a", "b"])), "\x1b[33m [a, b]\x1b[0m");
    assert_eq!(tag_suffix(&vec![]), "");
    assert_eq!(modified_label("t", 0, 31 * DAY), "\x1b[31mt\x1b[0m");
    assert_eq!(modified_label("t", 0, 30 * DAY), "\x1b[32mt\x1b[0m");
    assert_eq!(listing_header(Some("web")), "\x1b[32mInfo: \x1b[0mlisting directories with tag 'web'...");
}

fn dep(name: &str, version: &str, project: &str, dev: bool) -> DependencyEntry {
    DependencyEntry {
        name: name.to_string(),
        version_req: version.to_string(),
        project_path: project.to_string(),
        dep_type: "rust".to_string(),
        is_dev: dev,
    }
}

#[test]
fn shared_dependencies_most_used_first() {
    // `log` has two entries but only one project, so it is not shared.
    let ds = vec![
        dep("log", "0.4", "/w/a", false),
        dep("log", "0.4", "/w/a", true),
        dep("serde", "1", "/w/b", false),
        dep("anyhow", "1.0", "/w/a", false),
        dep("serde", "1.0.1", "/w/a", false),
        dep("anyhow", "1", "/w/c", true),
        dep("serde", "1", "/w/c", false),
        dep("rand", "0.8", "/w/a", false),
        dep("serde", "1", "/w/a/", false),
    ];
    let shared = find_shared(&ds);
    let got: Vec<(&str, &str, Vec<String>)> =
        shared.iter().map(|s| (s.name.as_str(), s.version.as_str(), s.projects.clone())).collect();
    assert_eq!(
        got,
        vec![("serde", "1", strings(&["a", "b", "c"])), ("anyhow", "1.0", strings(&["a", "c"]))]
    );
    assert_eq!(count_projects(&ds), 4);
    assert_eq!(count_unique(&ds), 4);
    assert_eq!(deps_of_project(&ds, "a"), vec![0, 1, 3, 4, 7, 8]);
    let sums = project_summaries(&ds);
    let got: Vec<(&str, usize, usize)> = sums.iter().map(|p| (p.path.as_str(), p.total, p.dev)).collect();
    assert_eq!(got, vec![("/w/a", 5, 1), ("/w/b", 1, 0), ("/w/c", 2, 1), ("/w/a/", 1, 0)]);
    let same_name = vec![dep("serde", "1", "/a/x", false), dep("serde", "1", "/b/x", false)];
    let shared = find_shared(&same_name);
    assert_eq!(shared.len(), 1);
    assert_eq!(shared[0].projects, strings(&["x"]));
    assert_eq!(ecosystem_colored("go"), "\x1b[34mgo\x1b[0m");
    assert_eq!(ecosystem_label("js"), "\x1b[33mJS\x1b[0m");
    assert_eq!(ecosystem_label("zig"), "\x1b[37mUnknown\x1b[0m");
}
