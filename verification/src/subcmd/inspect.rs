//! The records `inspect` makes of a directory it analyses on demand.
use vstd::prelude::*;

use crate::analyzer::{project_type_name, GitHealth, ProjectType};
use crate::snapshot::ProjectSnapshot;

verus! {

/// The record of a directory that is not a git repository (or whose
/// repository could not be read): its path, type and lines of code, and
/// everything else empty, false, zero or the default date.
pub fn basic_snapshot(path: &str, project_type: ProjectType, loc: u32) -> (p: ProjectSnapshot)
    ensures
        p.path@ == path@,
        p.project_type@ == project_type_name(project_type),
        p.git_branch@ == Seq::<char>::empty(),
        !p.is_dirty,
        p.unpushed_commits == 0,
        p.last_commit_date == 0,
        p.last_modified_date == 0,
        p.lines_of_code == loc,
        p.health_score == 0,
{
    ProjectSnapshot {
        path: String::from_str(path),
        project_type: String::from_str(project_type.as_str()),
        git_branch: String::new(),
        is_dirty: false,
        unpushed_commits: 0,
        last_commit_date: 0,
        last_modified_date: 0,
        lines_of_code: loc,
        health_score: 0,
    }
}

/// The record of a git repository analysed on demand: its head facts and
/// the health score computed for it; the last modification is left at the
/// default date.
pub fn inspected_snapshot(path: &str, project_type: ProjectType, git: GitHealth, health: u8, loc: u32) -> (p:
    ProjectSnapshot)
    ensures
        p.path@ == path@,
        p.project_type@ == project_type_name(project_type),
        p.git_branch@ == git.branch@,
        p.is_dirty == git.is_dirty,
        p.unpushed_commits == git.unpushed_commits,
        p.last_commit_date == git.last_commit_date,
        p.last_modified_date == 0,
        p.lines_of_code == loc,
        p.health_score == health,
{
    ProjectSnapshot {
        path: String::from_str(path),
        project_type: String::from_str(project_type.as_str()),
        git_branch: git.branch,
        is_dirty: git.is_dirty,
        unpushed_commits: git.unpushed_commits,
        last_commit_date: git.last_commit_date,
        last_modified_date: 0,
        lines_of_code: loc,
        health_score: health,
    }
}

} // verus!
