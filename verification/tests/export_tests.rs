use projector::export_template::{
    html_escape, render_empty_html, render_rank_items, render_table_rows, render_type_chart, DashboardProject,
    RankItem, TypeDistItem,
};
use projector::snapshot::ProjectSnapshot;
use projector::subcmd::export::{dashboard_projects, rank_items, type_items};

#[test]
fn test_render_empty() {
    let html = render_empty_html();
    assert!(html.contains("No snapshot found"));
    assert!(html.starts_with("<!DOCTYPE html>"));
    assert!(html.contains("📊 Projector Dashboard"));
}

#[test]
fn escaping_html() {
    assert_eq!(html_escape("a<b>&\"c\""), "a&lt;b&gt;&amp;&quot;c&quot;");
    assert_eq!(html_escape("plain"), "plain");
    assert_eq!(html_escape("&lt;"), "&amp;lt;");
}

#[test]
fn test_dashboard_with_projects() {
    let projects = vec![
        DashboardProject {
            name: "proj-a".to_string(),
            project_type: "Rust".to_string(),
            branch: "main".to_string(),
            status: "clean".to_string(),
            health: 90,
        },
        DashboardProject {
            name: "proj-b".to_string(),
            project_type: "Python".to_string(),
            branch: "dev".to_string(),
            status: "dirty".to_string(),
            health: 60,
        },
    ];
    let rows = render_table_rows(&projects);
    assert!(rows.contains("proj-a"));
    assert!(rows.contains("proj-b"));
    assert!(rows.contains("90"));
    assert!(rows.contains("60"));
    assert_eq!(
        render_table_rows(&projects[..1].iter().map(|p| DashboardProject {
            name: p.name.clone(),
            project_type: p.project_type.clone(),
            branch: p.branch.clone(),
            status: p.status.clone(),
            health: p.health,
        }).collect()),
        "<tr><td>proj-a</td><td>Rust</td><td>main</td><td><span class=\"badge badge-good\">clean</span></td><td><span class=\"badge badge-good\">90/100</span></td></tr>"
    );
}

#[test]
fn rankings_and_type_chart() {
    let items = vec![
        RankItem { name: "a&b".to_string(), health: 80 },
        RankItem { name: "c".to_string(), health: 49 },
    ];
    assert_eq!(
        render_rank_items(&items),
        "<div class=\"rank-item\"><span>a&amp;b</span><span class=\"badge badge-good\">80/100</span></div><div class=\"rank-item\"><span>c</span><span class=\"badge badge-poor\">49/100</span></div>"
    );
    let chart = render_type_chart(&vec![TypeDistItem { name: "Go".to_string(), count: 3 }], &vec![75]);
    assert_eq!(
        chart,
        "<div class=\"bar-row\"><span class=\"bar-label\">Go</span><div class=\"bar-track\"><div class=\"bar-fill\" style=\"width:75%;background:#3498db\"></div></div><span class=\"bar-count\">3</span></div>"
    );
    assert_eq!(render_rank_items(&vec![]), "");
}

fn project(path: &str, health: u8, dirty: bool, last_commit: i64) -> ProjectSnapshot {
    ProjectSnapshot {
        path: path.to_string(),
        project_type: "Go".to_string(),
        git_branch: "main".to_string(),
        is_dirty: dirty,
        unpushed_commits: 0,
        last_commit_date: last_commit,
        last_modified_date: last_commit,
        lines_of_code: 1,
        health_score: health,
    }
}

#[test]
fn dashboard_table_is_healthiest_first_with_plain_status() {
    let now = 1000 * 86400;
    let ps = vec![project("/x/low", 40, false, 0), project("/x/top", 95, true, now), project("/x/mid", 95, false, now)];
    let rows = dashboard_projects(&ps, now, 90);
    let got: Vec<(&str, &str, u8)> = rows.iter().map(|r| (r.name.as_str(), r.status.as_str(), r.health)).collect();
    assert_eq!(got, vec![("top", "dirty", 95), ("mid", "clean", 95), ("low", "stale", 40)]);
    let ranks = rank_items(&ps);
    assert_eq!(ranks[0].name, "low");
    assert_eq!(ranks[0].health, 40);
    let types = type_items(&vec![("Go".to_string(), 3)]);
    assert_eq!(types[0].name, "Go");
    assert_eq!(types[0].count, 3);
}
