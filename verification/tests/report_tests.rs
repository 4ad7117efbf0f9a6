use projector::snapshot::ProjectSnapshot;
use projector::subcmd::report::{
    apply_filters, apply_sort, branch_shown, field_value, is_stale, markdown_row, pad_right, parse_field_op_value,
    parse_filters, report_cells, report_projects, status_label, table_bottom, table_row, table_sep, table_top, visible_width,
    NumericOrder, ReportError,
};
use projector::tags::TagsIndex;

fn make_project(path: &str, ptype: &str, health: u8, dirty: bool, loc: u32, branch: &str) -> ProjectSnapshot {
    let now = chrono::Utc::now().timestamp();
    ProjectSnapshot {
        path: path.to_string(),
        project_type: ptype.to_string(),
        git_branch: branch.to_string(),
        is_dirty: dirty,
        unpushed_commits: 0,
        last_commit_date: now,
        last_modified_date: now,
        lines_of_code: loc,
        health_score: health,
    }
}

/// Filters as `report --filter` does: the numeric comparisons are made on
/// the texts read as `f64`.
fn filter_with(
    projects: Vec<ProjectSnapshot>,
    specs: &[&str],
    tags: &TagsIndex,
) -> Result<Vec<ProjectSnapshot>, ReportError> {
    let now = chrono::Utc::now().timestamp();
    let fs = parse_filters(&specs.iter().map(|s| s.to_string()).collect())?;
    let numeric: Vec<Vec<Option<NumericOrder>>> = fs
        .iter()
        .map(|f| {
            projects
                .iter()
                .map(|p| {
                    let v = field_value(p, f, now, tags);
                    match (v.parse::<f64>(), f.value.parse::<f64>()) {
                        (Ok(a), Ok(b)) => Some(if a < b {
                            NumericOrder::Less
                        } else if a > b {
                            NumericOrder::Greater
                        } else if a == b {
                            NumericOrder::Equal
                        } else {
                            NumericOrder::Unordered
                        }),
                        _ => None,
                    }
                })
                .collect()
        })
        .collect();
    Ok(apply_filters(projects, &fs, now, tags, &numeric))
}

fn apply_filters_to(projects: Vec<ProjectSnapshot>, specs: &[&str]) -> Result<Vec<ProjectSnapshot>, ReportError> {
    filter_with(projects, specs, &TagsIndex::new())
}

#[test]
fn test_apply_sort_health_asc() {
    let projects = vec![
        make_project("/a", "Rust", 60, false, 100, "main"),
        make_project("/b", "Python", 80, false, 200, "main"),
        make_project("/c", "Rust", 70, false, 300, "main"),
    ];
    let sorted = apply_sort(projects, "health").unwrap();
    assert_eq!(sorted[0].health_score, 60);
    assert_eq!(sorted[2].health_score, 80);
}

#[test]
fn test_apply_sort_health_desc() {
    let projects = vec![
        make_project("/a", "Rust", 60, false, 100, "main"),
        make_project("/b", "Python", 80, false, 200, "main"),
        make_project("/c", "Rust", 70, false, 300, "main"),
    ];
    let sorted = apply_sort(projects, "-health").unwrap();
    assert_eq!(sorted[0].health_score, 80);
    assert_eq!(sorted[2].health_score, 60);
}

#[test]
fn test_apply_sort_invalid_field() {
    let projects = vec![];
    let result = apply_sort(projects, "invalid");
    assert!(result.is_err());
}

#[test]
fn sorting_by_text_is_stable_and_lines_of_code_names_loc() {
    let projects = vec![
        make_project("/b", "Rust", 1, false, 300, "x"),
        make_project("/a", "Go", 2, false, 100, "x"),
        make_project("/c", "Rust", 3, false, 100, "x"),
    ];
    let by_type = apply_sort(projects, "type").unwrap();
    let paths: Vec<&str> = by_type.iter().map(|p| p.path.as_str()).collect();
    assert_eq!(paths, vec!["/a", "/b", "/c"]);
    let by_loc = apply_sort(by_type, "-lines_of_code").unwrap();
    let paths: Vec<&str> = by_loc.iter().map(|p| p.path.as_str()).collect();
    assert_eq!(paths, vec!["/b", "/a", "/c"]);
    match apply_sort(by_loc, "-size") {
        Err(e) => assert_eq!(
            e.message(),
            "Invalid sort field: 'size'. Valid fields: name, type, health, loc, lines_of_code, branch, last_commit"
        ),
        Ok(_) => panic!("expected an error"),
    }
}

#[test]
fn test_apply_filter_type_eq() {
    let projects =
        vec![make_project("/a", "Rust", 60, false, 100, "main"), make_project("/b", "Python", 80, false, 200, "main")];
    let filtered = apply_filters_to(projects, &["type=Rust"]).unwrap();
    assert_eq!(filtered.len(), 1);
    assert_eq!(filtered[0].path, "/a");
}

#[test]
fn test_apply_filter_health_gte() {
    let projects = vec![
        make_project("/a", "Rust", 60, false, 100, "main"),
        make_project("/b", "Python", 80, false, 200, "main"),
        make_project("/c", "Rust", 70, false, 300, "main"),
    ];
    let filtered = apply_filters_to(projects, &["health:gte=70"]).unwrap();
    assert_eq!(filtered.len(), 2);
}

#[test]
fn test_apply_filter_health_lte() {
    let projects =
        vec![make_project("/a", "Rust", 60, false, 100, "main"), make_project("/b", "Python", 80, false, 200, "main")];
    let filtered = apply_filters_to(projects, &["health:lte=70"]).unwrap();
    assert_eq!(filtered.len(), 1);
}

#[test]
fn test_apply_filter_dirty_eq() {
    let projects =
        vec![make_project("/a", "Rust", 60, true, 100, "main"), make_project("/b", "Python", 80, false, 200, "main")];
    let filtered = apply_filters_to(projects, &["dirty=true"]).unwrap();
    assert_eq!(filtered.len(), 1);
    assert_eq!(filtered[0].path, "/a");
}

#[test]
fn test_apply_filter_type_and_health() {
    let projects = vec![
        make_project("/a", "Rust", 60, false, 100, "main"),
        make_project("/b", "Rust", 80, false, 200, "main"),
        make_project("/c", "Python", 90, false, 300, "main"),
    ];
    let filtered = apply_filters_to(projects, &["type=Rust", "health:gte=70"]).unwrap();
    assert_eq!(filtered.len(), 1);
    assert_eq!(filtered[0].path, "/b");
}

#[test]
fn filters_ignore_ascii_case_and_compare_text_when_not_numbers() {
    let projects = vec![
        make_project("/a", "Rust", 60, false, 100, "alpha"),
        make_project("/b", "Python", 80, false, 200, "beta"),
    ];
    let by_type = apply_filters_to(projects, &["type=rust"]).unwrap();
    assert_eq!(by_type.len(), 1);
    let by_branch = apply_filters_to(by_type, &["branch:gt=alp"]).unwrap();
    assert_eq!(by_branch.len(), 1);
}

#[test]
fn tag_filters_compare_whether_the_tag_is_carried() {
    let mut tags = TagsIndex::new();
    tags.add_tag("/a", "web");
    let projects =
        vec![make_project("/a", "Rust", 60, false, 100, "main"), make_project("/b", "Rust", 60, false, 100, "main")];
    // the value compared is `true`/`false`, so only `tag=true` can match
    let named = filter_with(projects, &["tag=web"], &tags).unwrap();
    assert_eq!(named.len(), 0);
}

#[test]
fn filter_errors_name_the_first_bad_filter() {
    let projects = vec![make_project("/a", "Rust", 60, false, 100, "main")];
    match apply_filters_to(projects, &["type=Rust", "size=3", "bad"]) {
        Err(e) => assert_eq!(
            e.message(),
            "Invalid filter field: 'size'. Valid fields: name, type, health, loc, dirty, branch, last_commit, tag"
        ),
        Ok(_) => panic!("expected an error"),
    }
    match parse_filters(&vec!["health:approx=3".to_string()]) {
        Err(e) => assert_eq!(e.message(), "Invalid filter operator: 'approx'. Valid operators: eq, gte, lte, gt, lt"),
        Ok(_) => panic!("expected an error"),
    }
    match parse_filters(&vec!["oops".to_string()]) {
        Err(e) => assert_eq!(e.message(), "Invalid filter syntax: 'oops'. Use format <field>[:<op>]=<value>"),
        Ok(_) => panic!("expected an error"),
    }
}

#[test]
fn test_parse_field_op_value_eq() {
    let (field, op, val) = parse_field_op_value("type=Rust", "type=Rust").unwrap();
    assert_eq!(field, "type");
    assert_eq!(op, "eq");
    assert_eq!(val, "Rust");
}

#[test]
fn test_parse_field_op_value_gte() {
    let (field, op, val) = parse_field_op_value("health:gte=80", "health:gte=80").unwrap();
    assert_eq!(field, "health");
    assert_eq!(op, "gte");
    assert_eq!(val, "80");
}

#[test]
fn test_parse_field_op_value_invalid() {
    let result = parse_field_op_value("noequalsign", "noequalsign");
    assert!(result.is_err());
}

#[test]
fn parse_splits_at_the_first_equals_and_colon() {
    let (f, o, v) = parse_field_op_value("a:b:c=d=e", "x").unwrap();
    assert_eq!((f.as_str(), o.as_str(), v.as_str()), ("a", "b:c", "d=e"));
}

#[test]
fn visible_width_skips_escape_sequences() {
    assert_eq!(visible_width("\x1b[31mabc\x1b[0m"), 3);
    assert_eq!(visible_width("héllo"), 5);
    assert_eq!(pad_right("\x1b[32mab\x1b[0m", 4), "\x1b[32mab\x1b[0m  ");
    assert_eq!(pad_right("abcdef", 3), "abcdef");
}

#[test]
fn table_lines_have_the_same_width() {
    let w = vec![3, 5];
    assert_eq!(table_top(&w), "┌─────┬───────┐");
    assert_eq!(table_sep(&w), "├─────┼───────┤");
    assert_eq!(table_bottom(&w), "└─────┴───────┘");
    let row = table_row(&w, &vec!["ab".to_string(), "\x1b[31mx\x1b[0m".to_string()]);
    assert_eq!(row, "│ ab  │ \x1b[31mx\x1b[0m     │");
    assert_eq!(visible_width(&row), visible_width(&table_top(&w)));
}

#[test]
fn status_and_staleness() {
    let now = 1000 * 86400;
    assert!(is_stale(now - 90 * 86400, 90, now));
    assert!(!is_stale(now - 89 * 86400, 90, now));
    assert_eq!(status_label(true, 0, 90, now), "\x1b[33mdirty\x1b[0m");
    assert_eq!(status_label(false, 0, 90, now), "\x1b[31mstale\x1b[0m");
    assert_eq!(status_label(false, now, 90, now), "\x1b[32mclean\x1b[0m");
}

#[test]
fn long_branches_are_cut() {
    assert_eq!(branch_shown("main"), "main");
    assert_eq!(branch_shown("0123456789"), "0123456789");
    assert_eq!(branch_shown("feature/long-name"), "feature/lo…");
}

#[test]
fn report_rows() {
    let now = 1_700_000_000;
    let mut p = make_project("/w/app", "Rust", 85, false, 10, "main");
    p.last_commit_date = now;
    let cells = report_cells(&p, now, 90);
    assert_eq!(cells[0], "\x1b[34mapp\x1b[0m");
    assert_eq!(cells[1], "Rust");
    assert_eq!(cells[2], "main");
    assert_eq!(cells[3], "\x1b[32mclean\x1b[0m");
    assert_eq!(cells[4], "\x1b[37m2023-11-14\x1b[0m");
    assert_eq!(cells[5], "\x1b[32m85/100\x1b[0m");
    assert_eq!(markdown_row(&p, now, 90), "| app | Rust | main | \x1b[32mclean\x1b[0m | 2023-11-14 | 85/100 |");
}

#[test]
fn any_invalid_filter_fails_the_whole_request() {
    match parse_filters(&vec!["type=Rust".to_string(), "health:gte=70".to_string(), "nope".to_string()]) {
        Err(e) => assert_eq!(e.message(), "Invalid filter syntax: 'nope'. Use format <field>[:<op>]=<value>"),
        Ok(_) => panic!("expected an error"),
    }
}

#[test]
fn report_filters_then_sorts() {
    let projects = vec![
        make_project("/a", "Rust", 60, false, 100, "main"),
        make_project("/b", "Python", 80, false, 200, "main"),
        make_project("/c", "Rust", 70, false, 300, "main"),
    ];
    let tags = TagsIndex::new();
    let fs = parse_filters(&vec!["type=Rust".to_string()]).unwrap();
    let numeric = vec![vec![None, None, None]];
    let now = chrono::Utc::now().timestamp();
    let copy = |v: &Vec<ProjectSnapshot>| v.iter().map(|p| p.copy()).collect::<Vec<_>>();
    let r = report_projects(copy(&projects), &fs, now, &tags, &numeric, Some("-health")).unwrap();
    let paths: Vec<&str> = r.iter().map(|p| p.path.as_str()).collect();
    assert_eq!(paths, vec!["/c", "/a"]);
    let r = report_projects(copy(&projects), &fs, now, &tags, &numeric, None).unwrap();
    assert_eq!(r.len(), 2);
    assert!(report_projects(projects, &fs, now, &tags, &numeric, Some("size")).is_err());
}
