//! The data of the HTML dashboard drawn from a snapshot: the project table
//! (healthiest first, with a plain status), the rankings and the type
//! chart's entries.
use vstd::prelude::*;

use crate::export_template::{DashboardProject, RankItem, TypeDistItem};
use crate::ordering::stable_order;
use crate::snapshot::ProjectSnapshot;
use crate::subcmd::report::{is_stale, project_keys, reordered, sort_projects, stale, SortField};
use crate::text::{display_name, last_segment};

verus! {

/// A project's status on the dashboard: `dirty`, else `stale` when there
/// has been no commit for the threshold, else `clean`.
pub open spec fn plain_status(p: ProjectSnapshot, now: int, stale_threshold_days: u32) -> Seq<char> {
    if p.is_dirty {
        "dirty"@
    } else if stale(now, p.last_commit_date as int, stale_threshold_days) {
        "stale"@
    } else {
        "clean"@
    }
}

/// The dashboard row of a project.
pub open spec fn dashboard_row_of(p: ProjectSnapshot, now: int, stale_threshold_days: u32, d: DashboardProject) -> bool {
    &&& d.name@ == last_segment(p.path@)
    &&& d.project_type@ == p.project_type@
    &&& d.branch@ == p.git_branch@
    &&& d.status@ == plain_status(p, now, stale_threshold_days)
    &&& d.health == p.health_score
}

/// The dashboard row of one project at time `now`.
pub fn dashboard_project(p: &ProjectSnapshot, now: i64, stale_threshold_days: u32) -> (d: DashboardProject)
    ensures
        dashboard_row_of(*p, now as int, stale_threshold_days, d),
{
    let status = if p.is_dirty {
        String::from_str("dirty")
    } else if is_stale(p.last_commit_date, stale_threshold_days, now) {
        String::from_str("stale")
    } else {
        String::from_str("clean")
    };
    DashboardProject {
        name: display_name(p.path.as_str()),
        project_type: p.project_type.clone(),
        branch: p.git_branch.clone(),
        status,
        health: p.health_score,
    }
}

/// The project table of the dashboard: the projects sorted by health,
/// highest first (equal scores keep their order), one row each.
pub fn dashboard_projects(projects: &Vec<ProjectSnapshot>, now: i64, stale_threshold_days: u32) -> (r: Vec<
    DashboardProject,
>)
    ensures
        exists|perm: Seq<usize>|
            {
                &&& stable_order(project_keys(projects@, SortField::Health), true, perm)
                &&& r.len() == perm.len()
                &&& forall|i: int|
                    0 <= i < r.len() ==> dashboard_row_of(
                        #[trigger] reordered(projects@, perm)[i],
                        now as int,
                        stale_threshold_days,
                        r@[i],
                    )
            },
{
    let sorted = sort_projects(projects, SortField::Health, true);
    let mut rows: Vec<DashboardProject> = Vec::new();
    let mut i: usize = 0;
    while i < sorted.len()
        invariant
            i <= sorted.len(),
            rows.len() == i,
            forall|j: int| 0 <= j < i ==> dashboard_row_of(#[trigger] sorted@[j], now as int, stale_threshold_days, rows@[j]),
        decreases sorted.len() - i,
    {
        rows.push(dashboard_project(&sorted[i], now, stale_threshold_days));
        i = i + 1;
    }
    rows
}

/// The ranking entries of some projects: each one's name and health.
pub fn rank_items(ps: &Vec<ProjectSnapshot>) -> (r: Vec<RankItem>)
    ensures
        r.len() == ps.len(),
        forall|i: int|
            0 <= i < r.len() ==> (#[trigger] r@[i]).name@ == last_segment(ps@[i].path@) && r@[i].health
                == ps@[i].health_score,
{
    let mut r: Vec<RankItem> = Vec::new();
    let mut i: usize = 0;
    while i < ps.len()
        invariant
            i <= ps.len(),
            r.len() == i,
            forall|j: int|
                0 <= j < i ==> (#[trigger] r@[j]).name@ == last_segment(ps@[j].path@) && r@[j].health
                    == ps@[j].health_score,
        decreases ps.len() - i,
    {
        r.push(RankItem { name: display_name(ps[i].path.as_str()), health: ps[i].health_score });
        i = i + 1;
    }
    r
}

/// The type chart's entries: each type with its number of projects.
pub fn type_items(dist: &Vec<(String, usize)>) -> (r: Vec<TypeDistItem>)
    ensures
        r.len() == dist.len(),
        forall|i: int| 0 <= i < r.len() ==> (#[trigger] r@[i]).name@ == dist@[i].0@ && r@[i].count == dist@[i].1,
{
    let mut r: Vec<TypeDistItem> = Vec::new();
    let mut i: usize = 0;
    while i < dist.len()
        invariant
            i <= dist.len(),
            r.len() == i,
            forall|j: int| 0 <= j < i ==> (#[trigger] r@[j]).name@ == dist@[j].0@ && r@[j].count == dist@[j].1,
        decreases dist.len() - i,
    {
        r.push(TypeDistItem { name: dist[i].0.clone(), count: dist[i].1 });
        i = i + 1;
    }
    r
}

} // verus!
