//! What `orphans` decides: which projects of the latest scan are orphans
//! (a git repository with no `origin` remote and no commit for more than a
//! number of days), which are not, and which are not repositories at all.
use vstd::prelude::*;

use crate::ordering::positions;
use crate::snapshot::ProjectSnapshot;
use crate::time::{days_between, days_since};

verus! {

/// What the file system and git show of a project directory.
#[derive(Debug, Clone, Copy, PartialEq, Eq, Structural)]
pub struct RepoLink {
    /// The directory holds `.git`.
    pub has_git: bool,
    /// The repository opens and has a remote named `origin`.
    pub has_origin: bool,
}

/// Where a project falls.
#[derive(Debug, Clone, Copy, PartialEq, Eq, Structural)]
pub enum OrphanKind {
    Orphan,
    NonOrphan,
    NoGit,
}

/// A project's kind at time `now`: no `.git` makes it `NoGit`; no `origin`
/// and a last commit more than `days` whole days ago make it an orphan.
pub open spec fn orphan_kind_of(p: ProjectSnapshot, link: RepoLink, now: int, days: u32) -> OrphanKind {
    if !link.has_git {
        OrphanKind::NoGit
    } else if !link.has_origin && days_between(now, p.last_commit_date as int) > days as int {
        OrphanKind::Orphan
    } else {
        OrphanKind::NonOrphan
    }
}

/// The projects of a scan split by kind, as positions in the scan's list.
#[derive(Debug)]
pub struct OrphanReport {
    pub orphans: Vec<usize>,
    pub non_orphans: Vec<usize>,
    pub no_git: Vec<usize>,
}

/// Project `i` is of kind `k`.
pub open spec fn of_kind(
    ps: Seq<ProjectSnapshot>,
    links: Seq<RepoLink>,
    now: int,
    days: u32,
    k: OrphanKind,
) -> spec_fn(int) -> bool {
    |i: int| orphan_kind_of(ps[i], links[i], now, days) == k
}

/// The kind of one project at time `now`.
pub fn orphan_kind(p: &ProjectSnapshot, link: RepoLink, now: i64, days: u32) -> (k: OrphanKind)
    ensures
        k == orphan_kind_of(*p, link, now as int, days),
{
    if !link.has_git {
        OrphanKind::NoGit
    } else if !link.has_origin && days_since(now, p.last_commit_date) > days as i64 {
        OrphanKind::Orphan
    } else {
        OrphanKind::NonOrphan
    }
}

/// Splits the projects of a scan into orphans, other repositories and
/// directories without git, each in the scan's order. `links[i]` is what
/// was found of project `i`.
pub fn classify_orphans(
    projects: &Vec<ProjectSnapshot>,
    links: &Vec<RepoLink>,
    now: i64,
    days: u32,
) -> (r: OrphanReport)
    requires
        links.len() == projects.len(),
    ensures
        r.orphans@ == positions(
            projects.len() as nat,
            of_kind(projects@, links@, now as int, days, OrphanKind::Orphan),
        ),
        r.non_orphans@ == positions(
            projects.len() as nat,
            of_kind(projects@, links@, now as int, days, OrphanKind::NonOrphan),
        ),
        r.no_git@ == positions(
            projects.len() as nat,
            of_kind(projects@, links@, now as int, days, OrphanKind::NoGit),
        ),
{
    let ghost ko = of_kind(projects@, links@, now as int, days, OrphanKind::Orphan);
    let ghost kt = of_kind(projects@, links@, now as int, days, OrphanKind::NonOrphan);
    let ghost kn = of_kind(projects@, links@, now as int, days, OrphanKind::NoGit);
    let mut orphans: Vec<usize> = Vec::new();
    let mut non_orphans: Vec<usize> = Vec::new();
    let mut no_git: Vec<usize> = Vec::new();
    let mut i: usize = 0;
    while i < projects.len()
        invariant
            i <= projects.len(),
            links.len() == projects.len(),
            ko == of_kind(projects@, links@, now as int, days, OrphanKind::Orphan),
            kt == of_kind(projects@, links@, now as int, days, OrphanKind::NonOrphan),
            kn == of_kind(projects@, links@, now as int, days, OrphanKind::NoGit),
            orphans@ == positions(i as nat, ko),
            non_orphans@ == positions(i as nat, kt),
            no_git@ == positions(i as nat, kn),
        decreases projects.len() - i,
    {
        let k = orphan_kind(&projects[i], links[i], now, days);
        match k {
            OrphanKind::Orphan => orphans.push(i),
            OrphanKind::NonOrphan => non_orphans.push(i),
            OrphanKind::NoGit => no_git.push(i),
        }
        assert(positions((i + 1) as nat, ko) == if ko(i as int) {
            positions(i as nat, ko).push(i)
        } else {
            positions(i as nat, ko)
        });
        assert(positions((i + 1) as nat, kt) == if kt(i as int) {
            positions(i as nat, kt).push(i)
        } else {
            positions(i as nat, kt)
        });
        assert(positions((i + 1) as nat, kn) == if kn(i as int) {
            positions(i as nat, kn).push(i)
        } else {
            positions(i as nat, kn)
        });
        i = i + 1;
    }
    OrphanReport { orphans, non_orphans, no_git }
}


/// A git repository without `origin` is an orphan exactly when its last
/// commit is more than `days` whole days before `now`; one with `origin` is
/// never an orphan, and a directory without `.git` is always `NoGit`. The
/// directory's modification date plays no part: two projects that differ
/// only in it fall in the same kind.
pub proof fn lemma_orphan_by_last_commit(p: ProjectSnapshot, q: ProjectSnapshot, link: RepoLink, now: int, days: u32)
    ensures
        link.has_git && !link.has_origin ==> (orphan_kind_of(p, link, now, days) == OrphanKind::Orphan <==> days_between(
            now,
            p.last_commit_date as int,
        ) > days as int),
        link.has_git && link.has_origin ==> orphan_kind_of(p, link, now, days) == OrphanKind::NonOrphan,
        !link.has_git ==> orphan_kind_of(p, link, now, days) == OrphanKind::NoGit,
        q.last_commit_date == p.last_commit_date ==> orphan_kind_of(q, link, now, days) == orphan_kind_of(
            p,
            link,
            now,
            days,
        ),
{
}

} // verus!
