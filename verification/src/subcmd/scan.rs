//! What `scan` decides after a scan: which projects fall below the alert
//! threshold, in which order, and the reasons shown for each.
use vstd::prelude::*;

use crate::ordering::stable_order;
use crate::snapshot::ProjectSnapshot;
use crate::subcmd::report::{project_keys, reordered, select, sort_projects, stale, SortField};
use crate::text::{decimal, i64_text, int_decimal, texts, u64_text};
use crate::time::{days_between, days_since};

verus! {

/// How long ago the last commit was, as a deduction names it: whole years
/// (`2y`) from two years on, else days (`412d`).
pub open spec fn age_text(days: int) -> Seq<char> {
    if days >= 730 {
        decimal((days / 365) as nat) + "y"@
    } else {
        int_decimal(days) + "d"@
    }
}

/// The reasons a project's health score was lowered, in the order the
/// score deducts them: `stale(..)` when there has been no commit for the
/// threshold, `dirty` for a dirty tree, `loc<100` for a small project.
pub open spec fn deductions_of(
    is_dirty: bool,
    last_commit: int,
    lines_of_code: u32,
    stale_threshold_days: u32,
    now: int,
) -> Seq<Seq<char>> {
    let days = days_between(now, last_commit);
    let s1: Seq<Seq<char>> = if stale(now, last_commit, stale_threshold_days) {
        seq!["stale("@ + age_text(days) + ")"@]
    } else {
        Seq::empty()
    };
    let s2: Seq<Seq<char>> = if is_dirty { s1.push("dirty"@) } else { s1 };
    if lines_of_code < 100 { s2.push("loc<100"@) } else { s2 }
}

fn age_string(days: i64) -> (r: String)
    ensures
        r@ == age_text(days as int),
{
    if days >= 730 {
        let years = days / 365;
        let s = u64_text(years as u64);
        s.concat("y")
    } else {
        let s = i64_text(days);
        s.concat("d")
    }
}

/// The reasons a project's health score was lowered, at time `now`.
pub fn health_deductions(
    is_dirty: bool,
    last_commit: i64,
    lines_of_code: u32,
    stale_threshold_days: u32,
    now: i64,
) -> (r: Vec<String>)
    ensures
        texts(r@) == deductions_of(is_dirty, last_commit as int, lines_of_code, stale_threshold_days, now as int),
{
    let mut r: Vec<String> = Vec::new();
    let days = days_since(now, last_commit);
    if days >= stale_threshold_days as i64 {
        let s = String::from_str("stale(");
        let s = s.concat(age_string(days).as_str());
        r.push(s.concat(")"));
    }
    if is_dirty {
        r.push(String::from_str("dirty"));
    }
    if lines_of_code < 100 {
        r.push(String::from_str("loc<100"));
    }
    assert(texts(r@) =~= deductions_of(is_dirty, last_commit as int, lines_of_code, stale_threshold_days, now as int));
    r
}

/// How the reasons follow a project in the alert: nothing when there are
/// none, else ` (` the reasons joined by `, ` `)`.
pub open spec fn reason_text(ds: Seq<Seq<char>>) -> Seq<char> {
    if ds.len() == 0 {
        Seq::empty()
    } else {
        " ("@ + joined(ds) + ")"@
    }
}

/// Texts joined by `, `.
pub open spec fn joined(ds: Seq<Seq<char>>) -> Seq<char>
    decreases ds.len(),
{
    if ds.len() == 0 {
        Seq::empty()
    } else if ds.len() == 1 {
        ds[0]
    } else {
        joined(ds.drop_last()) + ", "@ + ds.last()
    }
}

/// Texts joined by `, ` (`join(", ")`).
pub fn join_texts(v: &Vec<String>) -> (r: String)
    ensures
        r@ == joined(texts(v@)),
{
    let mut r = String::new();
    let mut i: usize = 0;
    while i < v.len()
        invariant
            i <= v.len(),
            r@ == joined(texts(v@.subrange(0, i as int))),
        decreases v.len() - i,
    {
        let ghost pre = texts(v@.subrange(0, i as int));
        let ghost pre1 = texts(v@.subrange(0, i + 1));
        assert(pre1.drop_last() =~= pre);
        if i > 0 {
            r = r.concat(", ");
        }
        r = r.concat(v[i].as_str());
        assert(pre1.len() == i + 1);
        if i == 0 {
            assert(r@ == pre1[0]);
        }
        i = i + 1;
    }
    assert(v@.subrange(0, v.len() as int) =~= v@);
    r
}

/// The reasons shown after a project in the alert.
pub fn deduction_reason(ds: &Vec<String>) -> (r: String)
    ensures
        r@ == reason_text(texts(ds@)),
{
    if ds.len() == 0 {
        String::new()
    } else {
        let s = String::from_str(" (");
        let s = s.concat(join_texts(ds).as_str());
        s.concat(")")
    }
}

/// The project's health score is below the alert threshold.
pub open spec fn below_threshold(ps: Seq<ProjectSnapshot>, threshold: u32) -> spec_fn(int) -> bool {
    |i: int| (ps[i].health_score as int) < (threshold as int)
}

/// The projects whose health is below a non-zero alert threshold, lowest
/// score first (equal scores keep their order). A threshold of 0 turns the
/// alert off.
pub fn low_health_projects(projects: &Vec<ProjectSnapshot>, threshold: u32) -> (r: Vec<ProjectSnapshot>)
    ensures
        threshold == 0 ==> r@.len() == 0,
        threshold > 0 ==> exists|perm: Seq<usize>|
            stable_order(
                project_keys(select(projects@, below_threshold(projects@, threshold)), SortField::Health),
                false,
                perm,
            ) && r@ == reordered(select(projects@, below_threshold(projects@, threshold)), perm),
{
    if threshold == 0 {
        return Vec::new();
    }
    let ghost keep = below_threshold(projects@, threshold);
    let mut low: Vec<ProjectSnapshot> = Vec::new();
    let mut i: usize = 0;
    while i < projects.len()
        invariant
            i <= projects.len(),
            keep == below_threshold(projects@, threshold),
            low@ == select(projects@.subrange(0, i as int), keep),
        decreases projects.len() - i,
    {
        let ghost prefix = projects@.subrange(0, i + 1);
        assert(prefix.drop_last() =~= projects@.subrange(0, i as int));
        if (projects[i].health_score as u32) < threshold {
            low.push(projects[i].copy());
        }
        i = i + 1;
    }
    assert(projects@.subrange(0, projects.len() as int) =~= projects@);
    sort_projects(&low, SortField::Health, false)
}

} // verus!
