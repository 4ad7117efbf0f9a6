//! What `activity` computes: recent commits per project, the totals, and
//! the order in which the busiest and the idle projects are listed.
use vstd::prelude::*;

use crate::analyzer::{count_where, within_days, CommitRecord};
use crate::display::{chrono_day, day_text};
use crate::ordering::{key_values, stable_order, stable_order_of, KeyValue, SortKey};
use crate::subcmd::report::select;
use crate::text::{decimal, i64_text, int_decimal, u64_text};
use crate::time::{chrono_timestamp_valid, days_between, days_since, timestamp_valid};

verus! {

/// One project's line in the activity report.
#[derive(Debug)]
pub struct ProjectActivity {
    pub path: String,
    pub name: String,
    pub project_type: String,
    /// Commits in the chosen number of days.
    pub recent_commits: u32,
    pub total_commits: u32,
    pub authors: u32,
    /// How the last commit is shown.
    pub last_commit_date: String,
}

/// The commits of a history made at most `days` whole days before `now`.
pub fn recent_commits(commits: &Vec<CommitRecord>, now: i64, days: u32) -> (n: u32)
    requires
        commits.len() <= u32::MAX,
    ensures
        n == count_where(commits@, within_days(now as int, days as int)),
{
    let mut n: u32 = 0;
    let mut i: usize = 0;
    while i < commits.len()
        invariant
            i <= commits.len(),
            commits.len() <= u32::MAX,
            n <= i,
            n == count_where(commits@.subrange(0, i as int), within_days(now as int, days as int)),
        decreases commits.len() - i,
    {
        let ghost pre1 = commits@.subrange(0, i + 1);
        assert(pre1.drop_last() =~= commits@.subrange(0, i as int));
        assert(pre1.last() == commits@[i as int]);
        if timestamp_valid(commits[i].time) && days_since(now, commits[i].time) <= days as i64 {
            n = n + 1;
        }
        i = i + 1;
    }
    assert(commits@.subrange(0, commits.len() as int) =~= commits@);
    n
}

/// The recent commits of the projects, added up.
pub open spec fn recent_total(acts: Seq<ProjectActivity>) -> nat
    decreases acts.len(),
{
    if acts.len() == 0 {
        0
    } else {
        recent_total(acts.drop_last()) + acts.last().recent_commits as nat
    }
}

/// The projects with at least one recent commit.
pub open spec fn active_count(acts: Seq<ProjectActivity>) -> nat
    decreases acts.len(),
{
    if acts.len() == 0 {
        0
    } else {
        active_count(acts.drop_last()) + if acts.last().recent_commits > 0 { 1nat } else { 0nat }
    }
}

/// All recent commits, and the number of projects that have any.
pub fn activity_totals(acts: &Vec<ProjectActivity>) -> (r: (u32, u32))
    requires
        recent_total(acts@) <= u32::MAX,
    ensures
        r.0 == recent_total(acts@),
        r.1 == active_count(acts@),
{
    let mut total: u32 = 0;
    let mut active: u32 = 0;
    let mut i: usize = 0;
    while i < acts.len()
        invariant
            i <= acts.len(),
            recent_total(acts@) <= u32::MAX,
            total == recent_total(acts@.subrange(0, i as int)),
            active == active_count(acts@.subrange(0, i as int)),
            active <= total,
        decreases acts.len() - i,
    {
        let ghost pre1 = acts@.subrange(0, i + 1);
        assert(pre1.drop_last() =~= acts@.subrange(0, i as int));
        proof {
            lemma_recent_total_prefix(acts@, i + 1);
        }
        total = total + acts[i].recent_commits;
        if acts[i].recent_commits > 0 {
            active = active + 1;
        }
        i = i + 1;
    }
    assert(acts@.subrange(0, acts.len() as int) =~= acts@);
    (total, active)
}

proof fn lemma_recent_total_prefix(acts: Seq<ProjectActivity>, k: int)
    requires
        0 <= k <= acts.len(),
    ensures
        recent_total(acts.subrange(0, k)) <= recent_total(acts),
    decreases acts.len() - k,
{
    if k < acts.len() {
        lemma_recent_total_prefix(acts, k + 1);
        assert(acts.subrange(0, k + 1).drop_last() =~= acts.subrange(0, k));
    } else {
        assert(acts.subrange(0, k) =~= acts);
    }
}

/// The keys the report sorts by: each project's recent commits.
pub open spec fn recent_keys(acts: Seq<ProjectActivity>) -> Seq<KeyValue> {
    acts.map_values(|a: ProjectActivity| KeyValue::Num(a.recent_commits as int))
}

/// The entries of `perm` whose project has recent commits (`hot`) or has
/// none.
pub open spec fn busy_in(acts: Seq<ProjectActivity>, perm: Seq<usize>, hot: bool) -> Seq<usize> {
    select(perm, busy_at(acts, perm, hot))
}

/// Entry `k` of `perm` names a project with recent commits (`hot`) or one
/// with none.
pub open spec fn busy_at(acts: Seq<ProjectActivity>, perm: Seq<usize>, hot: bool) -> spec_fn(int) -> bool {
    |k: int| (acts[perm[k] as int].recent_commits > 0) == hot
}

/// The order of the report: projects sorted by recent commits, most first
/// (ties keep their order), then split into the busy ones and the idle
/// ones. Both lists hold positions in `acts`.
pub fn activity_order(acts: &Vec<ProjectActivity>) -> (r: (Vec<usize>, Vec<usize>))
    ensures
        exists|perm: Seq<usize>|
            stable_order(recent_keys(acts@), true, perm) && r.0@ == busy_in(acts@, perm, true) && r.1@
                == busy_in(acts@, perm, false),
{
    let mut keys: Vec<SortKey> = Vec::new();
    let mut i: usize = 0;
    while i < acts.len()
        invariant
            i <= acts.len(),
            keys.len() == i,
            forall|j: int| 0 <= j < i ==> #[trigger] keys@[j].value() == KeyValue::Num(acts@[j].recent_commits as int),
        decreases acts.len() - i,
    {
        keys.push(SortKey::Num(acts[i].recent_commits as i128));
        i = i + 1;
    }
    assert(key_values(keys@) =~= recent_keys(acts@));
    let perm = stable_order_of(&keys, true);
    let ghost hot_sel = busy_at(acts@, perm@, true);
    let ghost idle_sel = busy_at(acts@, perm@, false);
    let mut hot: Vec<usize> = Vec::new();
    let mut idle: Vec<usize> = Vec::new();
    let mut k: usize = 0;
    while k < perm.len()
        invariant
            k <= perm.len(),
            perm.len() == acts.len(),
            forall|t: int| 0 <= t < perm.len() ==> perm@[t] < acts.len(),
            hot_sel == busy_at(acts@, perm@, true),
            idle_sel == busy_at(acts@, perm@, false),
            hot@ == select(perm@.subrange(0, k as int), hot_sel),
            idle@ == select(perm@.subrange(0, k as int), idle_sel),
        decreases perm.len() - k,
    {
        let ghost pre1 = perm@.subrange(0, k + 1);
        assert(pre1.drop_last() =~= perm@.subrange(0, k as int));
        assert(pre1.last() == perm@[k as int]);
        let p = perm[k];
        if acts[p].recent_commits > 0 {
            hot.push(p);
        } else {
            idle.push(p);
        }
        k = k + 1;
    }
    assert(perm@.subrange(0, perm.len() as int) =~= perm@);
    assert(stable_order(recent_keys(acts@), true, perm@));
    assert(hot@ == busy_in(acts@, perm@, true));
    assert(idle@ == busy_in(acts@, perm@, false));
    (hot, idle)
}

/// How the number of authors is written: `1 author`, else `N authors`.
pub open spec fn author_text(n: u32) -> Seq<char> {
    if n == 1 {
        "1 author"@
    } else {
        decimal(n as nat) + " authors"@
    }
}

/// How the number of authors is written.
pub fn author_label(n: u32) -> (r: String)
    ensures
        r@ == author_text(n),
{
    if n == 1 {
        String::from_str("1 author")
    } else {
        let s = u64_text(n as u64);
        s.concat(" authors")
    }
}

/// What a project's repository shows of its head.
pub enum HeadCommit {
    /// The repository does not open.
    NoRepository,
    /// It has no head commit.
    NoCommits,
    /// The head commit's time, seconds since the epoch.
    At(i64),
}

/// How the last commit is shown: `unknown` when the repository does not
/// open or the time is out of chrono's range, `no commits`, or the day and
/// how many whole days ago it was.
pub open spec fn last_commit_text(head: HeadCommit, now: int) -> Seq<char> {
    match head {
        HeadCommit::NoRepository => "unknown"@,
        HeadCommit::NoCommits => "no commits"@,
        HeadCommit::At(t) => if chrono_timestamp_valid(t) {
            chrono_day(t) + " ("@ + int_decimal(days_between(now, t as int)) + "d ago)"@
        } else {
            "unknown"@
        },
    }
}

/// How the last commit is shown at time `now`.
pub fn last_commit_label(head: &HeadCommit, now: i64) -> (r: String)
    ensures
        r@ == last_commit_text(*head, now as int),
{
    match head {
        HeadCommit::NoRepository => String::from_str("unknown"),
        HeadCommit::NoCommits => String::from_str("no commits"),
        HeadCommit::At(t) => match day_text(*t) {
            Some(day) => {
                let s = day.concat(" (");
                let s = s.concat(i64_text(days_since(now, *t)).as_str());
                s.concat("d ago)")
            },
            None => String::from_str("unknown"),
        },
    }
}

} // verus!
