//! Project analysis: type detection, the health score, commit activity,
//! file type distribution and the statistics over a snapshot.
use vstd::prelude::*;

use crate::ordering::{key_values, stable_order, stable_order_of, KeyValue, SortKey};
use crate::snapshot::{ProjectSnapshot, ScanSnapshot};
use crate::subcmd::report::{is_stale, project_keys, project_order, reorder, reordered, stale, SortField};
use crate::text::{chars_of, contains_text, file_name, file_name_of, last_segment, str_eq, eq_ignore_ascii_case, eq_ignoring_ascii_case, owned, texts, lemma_push_contains};
use crate::time::{chrono_timestamp_valid, days_between, days_since, lemma_days_between_monotone, timestamp_valid};

verus! {

// ---------------------------------------------------------------------------
// Health score
// ---------------------------------------------------------------------------

/// The deduction for unpushed commits: five points for every full five.
pub open spec fn unpushed_deduction(unpushed_commits: u32) -> int {
    (unpushed_commits as int / 5) * 5
}

/// The health score before it is clamped: 100 points, minus 15 when no
/// commit for `stale_threshold_days` days, 10 when the working tree is
/// dirty, 5 for every 5 unpushed commits, 10 when the last modification is
/// 60 or more days old, and 5 when there are fewer than 100 lines of code.
pub open spec fn raw_health(
    now: int,
    is_dirty: bool,
    unpushed_commits: u32,
    last_commit_date: int,
    last_modified_date: int,
    lines_of_code: u32,
    stale_threshold_days: u32,
) -> int {
    100 - (if days_between(now, last_commit_date) >= stale_threshold_days {
        15int
    } else {
        0
    }) - (if is_dirty {
        10int
    } else {
        0
    }) - unpushed_deduction(unpushed_commits) - (if days_between(now, last_modified_date) >= 60 {
        10int
    } else {
        0
    }) - (if lines_of_code < 100 {
        5int
    } else {
        0
    })
}

/// The health score at time `now`: the raw score clamped to `0..=100`.
pub open spec fn health_score(
    now: int,
    is_dirty: bool,
    unpushed_commits: u32,
    last_commit_date: int,
    last_modified_date: int,
    lines_of_code: u32,
    stale_threshold_days: u32,
) -> int {
    let raw = raw_health(
        now,
        is_dirty,
        unpushed_commits,
        last_commit_date,
        last_modified_date,
        lines_of_code,
        stale_threshold_days,
    );
    if raw < 0 {
        0
    } else if raw > 100 {
        100
    } else {
        raw
    }
}

/// The health score of a project at time `now` (seconds since the epoch;
/// the caller reads the clock).
pub fn compute_health_score(
    is_dirty: bool,
    unpushed_commits: u32,
    last_commit_date: i64,
    last_modified_date: i64,
    lines_of_code: u32,
    stale_threshold_days: u32,
    now: i64,
) -> (score: u8)
    ensures
        score as int == health_score(
            now as int,
            is_dirty,
            unpushed_commits,
            last_commit_date as int,
            last_modified_date as int,
            lines_of_code,
            stale_threshold_days,
        ),
        score <= 100,
{
    let mut score: i64 = 100;
    let days_since_commit = days_since(now, last_commit_date);
    if days_since_commit >= stale_threshold_days as i64 {
        score = score - 15;
    }
    if is_dirty {
        score = score - 10;
    }
    if unpushed_commits > 0 {
        score = score - (unpushed_commits as i64 / 5) * 5;
    }
    let days_since_modified = days_since(now, last_modified_date);
    if days_since_modified >= 60 {
        score = score - 10;
    }
    if lines_of_code < 100 {
        score = score - 5;
    }
    if score < 0 {
        0
    } else if score > 100 {
        100
    } else {
        score as u8
    }
}

/// A project that is clean, recently committed and modified, has fewer than
/// five unpushed commits and at least 100 lines of code scores 100.
pub proof fn lemma_health_full_score(
    now: int,
    unpushed_commits: u32,
    last_commit_date: int,
    last_modified_date: int,
    lines_of_code: u32,
    stale_threshold_days: u32,
)
    requires
        days_between(now, last_commit_date) < stale_threshold_days,
        days_between(now, last_modified_date) < 60,
        unpushed_commits < 5,
        lines_of_code >= 100,
    ensures
        health_score(
            now,
            false,
            unpushed_commits,
            last_commit_date,
            last_modified_date,
            lines_of_code,
            stale_threshold_days,
        ) == 100,
{
}

/// No risk factor ever raises the score: a project that is at least as
/// dirty, has at least as many unpushed commits, an older or equal last
/// commit and last modification, and no more lines of code (or the same
/// side of 100), scores at most as much, with the same threshold and clock.
pub proof fn lemma_health_monotone(
    now: int,
    stale_threshold_days: u32,
    dirty_a: bool,
    unpushed_a: u32,
    commit_a: int,
    modified_a: int,
    loc_a: u32,
    dirty_b: bool,
    unpushed_b: u32,
    commit_b: int,
    modified_b: int,
    loc_b: u32,
)
    requires
        dirty_b ==> dirty_a,
        unpushed_b <= unpushed_a,
        commit_a <= commit_b,
        modified_a <= modified_b,
        loc_b < 100 ==> loc_a < 100,
    ensures
        health_score(now, dirty_a, unpushed_a, commit_a, modified_a, loc_a, stale_threshold_days)
            <= health_score(now, dirty_b, unpushed_b, commit_b, modified_b, loc_b, stale_threshold_days),
{
    lemma_days_between_monotone(now, commit_a, commit_b);
    lemma_days_between_monotone(now, modified_a, modified_b);
    vstd::arithmetic::div_mod::lemma_div_is_ordered(unpushed_b as int, unpushed_a as int, 5);
}

/// The score always lies in `0..=100`.
pub proof fn lemma_health_in_range(
    now: int,
    is_dirty: bool,
    unpushed_commits: u32,
    last_commit_date: int,
    last_modified_date: int,
    lines_of_code: u32,
    stale_threshold_days: u32,
)
    ensures
        0 <= health_score(
            now,
            is_dirty,
            unpushed_commits,
            last_commit_date,
            last_modified_date,
            lines_of_code,
            stale_threshold_days,
        ) <= 100,
{
}


// ---------------------------------------------------------------------------
// Statistics over a snapshot
// ---------------------------------------------------------------------------

/// How many elements of `s` satisfy `pred`.
pub open spec fn count_where<A>(s: Seq<A>, pred: spec_fn(A) -> bool) -> nat
    decreases s.len(),
{
    if s.len() == 0 {
        0
    } else {
        count_where(s.drop_last(), pred) + if pred(s.last()) {
            1nat
        } else {
            0nat
        }
    }
}

/// The sum of `f` over `s`.
pub open spec fn sum_of<A>(s: Seq<A>, f: spec_fn(A) -> nat) -> nat
    decreases s.len(),
{
    if s.len() == 0 {
        0
    } else {
        sum_of(s.drop_last(), f) + f(s.last())
    }
}

/// The distinct elements of `s`, in the order they first occur.
pub open spec fn first_occurrences(s: Seq<Seq<char>>) -> Seq<Seq<char>>
    decreases s.len(),
{
    if s.len() == 0 {
        s
    } else if first_occurrences(s.drop_last()).contains(s.last()) {
        first_occurrences(s.drop_last())
    } else {
        first_occurrences(s.drop_last()).push(s.last())
    }
}

/// The project types of some projects.
pub open spec fn project_types(ps: Seq<ProjectSnapshot>) -> Seq<Seq<char>> {
    ps.map_values(|p: ProjectSnapshot| p.project_type@)
}

/// The health scores in the order `perm` gives.
pub open spec fn healths_in(ps: Seq<ProjectSnapshot>, perm: Seq<usize>) -> Seq<u8> {
    perm.map_values(|i: usize| ps[i as int].health_score)
}

/// The first `n` elements (all when fewer).
pub open spec fn first_n<A>(s: Seq<A>, n: nat) -> Seq<A> {
    if s.len() <= n {
        s
    } else {
        s.subrange(0, n as int)
    }
}

/// The middle health score(s) of an ascending list: the same one twice when
/// the length is odd, the two middle ones when it is even, `(0, 0)` when
/// empty. The median is their mean.
pub open spec fn middle_pair(sorted: Seq<u8>) -> (u8, u8) {
    let n = sorted.len();
    if n == 0 {
        (0, 0)
    } else if n % 2 == 1 {
        (sorted[(n / 2) as int], sorted[(n / 2) as int])
    } else {
        (sorted[(n / 2 - 1) as int], sorted[(n / 2) as int])
    }
}

/// The project has type `t`.
pub open spec fn type_is(t: Seq<char>) -> spec_fn(ProjectSnapshot) -> bool {
    |p: ProjectSnapshot| p.project_type@ == t
}

/// The project's health is at least 80 (good).
pub open spec fn health_good() -> spec_fn(ProjectSnapshot) -> bool {
    |p: ProjectSnapshot| p.health_score >= 80
}

/// The project's health is between 50 and 79 (fair).
pub open spec fn health_fair() -> spec_fn(ProjectSnapshot) -> bool {
    |p: ProjectSnapshot| p.health_score >= 50 && p.health_score < 80
}

/// The project's health is below 50 (poor).
pub open spec fn health_poor() -> spec_fn(ProjectSnapshot) -> bool {
    |p: ProjectSnapshot| p.health_score < 50
}

/// The project's working tree is dirty.
pub open spec fn dirty_tree() -> spec_fn(ProjectSnapshot) -> bool {
    |p: ProjectSnapshot| p.is_dirty
}

/// The project is stale at time `now`.
pub open spec fn stale_at(now: int, stale_threshold_days: u32) -> spec_fn(ProjectSnapshot) -> bool {
    |p: ProjectSnapshot| stale(now, p.last_commit_date as int, stale_threshold_days)
}

/// A project's health score.
pub open spec fn health_of() -> spec_fn(ProjectSnapshot) -> nat {
    |p: ProjectSnapshot| p.health_score as nat
}

/// A project's lines of code.
pub open spec fn loc_of() -> spec_fn(ProjectSnapshot) -> nat {
    |p: ProjectSnapshot| p.lines_of_code as nat
}

/// The exact statistics of a snapshot; averages, ratios and the standard
/// deviation are these counts and sums divided.
#[derive(Debug)]
pub struct ProjectStats {
    pub total_projects: usize,
    /// Each project type with its number of projects, in order of first
    /// appearance.
    pub type_distribution: Vec<(String, usize)>,
    /// Sum of the health scores.
    pub health_total: u128,
    /// The health scores in ascending order.
    pub health_sorted: Vec<u8>,
    /// The middle health score(s); the median is their mean.
    pub median_pair: (u8, u8),
    /// Projects with health `>= 80`, `50..=79`, `< 50`.
    pub health_buckets: (usize, usize, usize),
    /// The five healthiest projects, healthiest first.
    pub top5: Vec<ProjectSnapshot>,
    /// The five least healthy projects, least healthy first.
    pub bottom5: Vec<ProjectSnapshot>,
    pub total_loc: u32,
    pub dirty_count: usize,
    pub stale_count: usize,
}

/// The type names of a type distribution.
pub open spec fn dist_names(d: Seq<(String, usize)>) -> Seq<Seq<char>> {
    d.map_values(|e: (String, usize)| e.0@)
}

/// `st` holds the statistics of these projects at time `now`.
pub open spec fn stats_hold(
    st: ProjectStats,
    ps: Seq<ProjectSnapshot>,
    stale_threshold_days: u32,
    now: int,
) -> bool {
    &&& st.total_projects == ps.len()
    &&& dist_names(st.type_distribution@) == first_occurrences(project_types(ps))
    &&& forall|i: int|
        0 <= i < st.type_distribution.len() ==> #[trigger] st.type_distribution@[i].1 == count_where(
            ps,
            type_is(st.type_distribution@[i].0@),
        )
    &&& st.health_total == sum_of(ps, health_of())
    &&& exists|perm: Seq<usize>|
        {
            &&& stable_order(project_keys(ps, SortField::Health), false, perm)
            &&& st.health_sorted@ == healths_in(ps, perm)
            &&& st.bottom5@ == first_n(reordered(ps, perm), 5)
            &&& st.top5@ == first_n(reordered(ps, perm).reverse(), 5)
        }
    &&& st.median_pair == middle_pair(st.health_sorted@)
    &&& st.health_buckets.0 == count_where(ps, health_good())
    &&& st.health_buckets.1 == count_where(ps, health_fair())
    &&& st.health_buckets.2 == count_where(ps, health_poor())
    &&& st.total_loc == sum_of(ps, loc_of())
    &&& st.dirty_count == count_where(ps, dirty_tree())
    &&& st.stale_count == count_where(ps, stale_at(now, stale_threshold_days))
}

proof fn lemma_sum_prefix_bound<A>(s: Seq<A>, f: spec_fn(A) -> nat, i: int)
    requires
        0 <= i <= s.len(),
    ensures
        sum_of(s.subrange(0, i), f) <= sum_of(s, f),
    decreases s.len() - i,
{
    if i < s.len() {
        lemma_sum_prefix_bound(s, f, i + 1);
        assert(s.subrange(0, i + 1).drop_last() =~= s.subrange(0, i));
    } else {
        assert(s.subrange(0, i) =~= s);
    }
}


/// The three health buckets split the projects: every project falls in
/// exactly one, so their counts add up to the number of projects.
pub proof fn lemma_health_buckets_partition(ps: Seq<ProjectSnapshot>)
    ensures
        count_where(ps, health_good()) + count_where(ps, health_fair()) + count_where(ps, health_poor()) == ps.len(),
    decreases ps.len(),
{
    if ps.len() > 0 {
        lemma_health_buckets_partition(ps.drop_last());
    }
}


/// The project counts of a type distribution, added up.
pub open spec fn dist_total(d: Seq<(String, usize)>) -> nat
    decreases d.len(),
{
    if d.len() == 0 {
        0
    } else {
        dist_total(d.drop_last()) + d.last().1 as nat
    }
}

/// The numbers of projects of each of the types `names`, added up.
pub open spec fn type_counts_total(ps: Seq<ProjectSnapshot>, names: Seq<Seq<char>>) -> nat
    decreases names.len(),
{
    if names.len() == 0 {
        0
    } else {
        type_counts_total(ps, names.drop_last()) + count_where(ps, type_is(names.last()))
    }
}

/// How many of `names` are `t`.
pub open spec fn occurrences(names: Seq<Seq<char>>, t: Seq<char>) -> nat
    decreases names.len(),
{
    if names.len() == 0 {
        0
    } else {
        occurrences(names.drop_last(), t) + if names.last() == t { 1nat } else { 0nat }
    }
}

proof fn lemma_counts_total_push(ps: Seq<ProjectSnapshot>, p: ProjectSnapshot, names: Seq<Seq<char>>)
    ensures
        type_counts_total(ps.push(p), names) == type_counts_total(ps, names) + occurrences(names, p.project_type@),
    decreases names.len(),
{
    if names.len() > 0 {
        lemma_counts_total_push(ps, p, names.drop_last());
        assert(ps.push(p).drop_last() =~= ps);
    }
}

proof fn lemma_occurrences_distinct(names: Seq<Seq<char>>, t: Seq<char>)
    requires
        crate::text::distinct_texts(names),
    ensures
        occurrences(names, t) == if names.contains(t) { 1nat } else { 0nat },
    decreases names.len(),
{
    if names.len() > 0 {
        let init = names.drop_last();
        assert(crate::text::distinct_texts(init)) by {
            assert forall|i: int, j: int| 0 <= i < j < init.len() implies init[i] != init[j] by {
                assert(names[i] != names[j]);
            }
        }
        lemma_occurrences_distinct(init, t);
        lemma_push_contains(init, names.last(), t);
        assert(names =~= init.push(names.last()));
        if names.last() == t && init.contains(t) {
            let j = choose|j: int| 0 <= j < init.len() && init[j] == t;
            assert(names[j] == names[names.len() - 1]);
        }
    }
}

proof fn lemma_counts_total_extra(ps: Seq<ProjectSnapshot>, names: Seq<Seq<char>>, t: Seq<char>)
    ensures
        type_counts_total(ps, names.push(t)) == type_counts_total(ps, names) + count_where(ps, type_is(t)),
{
    assert(names.push(t).drop_last() =~= names);
}

/// Every project has exactly one type, so the counts of the distinct types
/// add up to the number of projects.
pub proof fn lemma_type_counts_cover(ps: Seq<ProjectSnapshot>)
    ensures
        type_counts_total(ps, first_occurrences(project_types(ps))) == ps.len(),
    decreases ps.len(),
{
    if ps.len() > 0 {
        let init = ps.drop_last();
        let p = ps.last();
        let t = p.project_type@;
        lemma_type_counts_cover(init);
        assert(project_types(ps).drop_last() =~= project_types(init));
        assert(project_types(ps).last() == t);
        assert(ps =~= init.push(p));
        let before = first_occurrences(project_types(init));
        lemma_first_occurrences(project_types(init));
        lemma_first_occurrences(project_types(ps));
        lemma_counts_total_push(init, p, first_occurrences(project_types(ps)));
        lemma_occurrences_distinct(first_occurrences(project_types(ps)), t);
        if before.contains(t) {
            assert(first_occurrences(project_types(ps)) == before);
        } else {
            assert(first_occurrences(project_types(ps)) == before.push(t));
            lemma_counts_total_extra(init, before, t);
            lemma_count_absent(init, t);
            lemma_push_contains(before, t, t);
        }
    }
}

proof fn lemma_dist_total(d: Seq<(String, usize)>, ps: Seq<ProjectSnapshot>)
    requires
        forall|i: int| 0 <= i < d.len() ==> #[trigger] d[i].1 == count_where(ps, type_is(d[i].0@)),
    ensures
        dist_total(d) == type_counts_total(ps, dist_names(d)),
    decreases d.len(),
{
    if d.len() > 0 {
        let init = d.drop_last();
        assert forall|i: int| 0 <= i < init.len() implies #[trigger] init[i].1 == count_where(ps, type_is(init[i].0@)) by {
            assert(init[i] == d[i]);
        }
        lemma_dist_total(init, ps);
        assert(dist_names(d).drop_last() =~= dist_names(init));
        assert(dist_names(d).last() == d.last().0@);
        assert(d.last() == d[d.len() - 1]);
    }
}

/// The type distribution of the statistics covers every project once: its
/// counts add up to the number of projects.
pub proof fn lemma_type_distribution_covers(st: ProjectStats, ps: Seq<ProjectSnapshot>, stale_threshold_days: u32, now: int)
    requires
        stats_hold(st, ps, stale_threshold_days, now),
    ensures
        dist_total(st.type_distribution@) == st.total_projects,
{
    lemma_dist_total(st.type_distribution@, ps);
    lemma_type_counts_cover(ps);
}

/// A count never exceeds the length.
pub proof fn lemma_count_le_len<A>(s: Seq<A>, pred: spec_fn(A) -> bool)
    ensures
        count_where(s, pred) <= s.len(),
    decreases s.len(),
{
    if s.len() > 0 {
        lemma_count_le_len(s.drop_last(), pred);
    }
}

/// The first occurrences hold each element of `s` once.
pub proof fn lemma_first_occurrences(s: Seq<Seq<char>>)
    ensures
        forall|x: Seq<char>| first_occurrences(s).contains(x) <==> s.contains(x),
        crate::text::distinct_texts(first_occurrences(s)),
    decreases s.len(),
{
    if s.len() > 0 {
        lemma_first_occurrences(s.drop_last());
        assert(s =~= s.drop_last().push(s.last()));
        assert forall|x: Seq<char>| first_occurrences(s).contains(x) <==> s.contains(x) by {
            lemma_push_contains(s.drop_last(), s.last(), x);
            lemma_push_contains(first_occurrences(s.drop_last()), s.last(), x);
        }
    }
}

proof fn lemma_count_absent(ps: Seq<ProjectSnapshot>, t: Seq<char>)
    requires
        !project_types(ps).contains(t),
    ensures
        count_where(ps, type_is(t)) == 0,
    decreases ps.len(),
{
    if ps.len() > 0 {
        assert(project_types(ps.drop_last()) =~= project_types(ps).drop_last());
        assert(project_types(ps)[ps.len() - 1] == ps.last().project_type@);
        if project_types(ps.drop_last()).contains(t) {
            let j = choose|j: int| 0 <= j < project_types(ps.drop_last()).len() && project_types(ps.drop_last())[j] == t;
            assert(project_types(ps)[j] == t);
        }
        lemma_count_absent(ps.drop_last(), t);
    }
}

/// The statistics of a snapshot at time `now` (seconds since the epoch;
/// the caller reads the clock).
#[verifier::rlimit(50)]
pub fn compute_stats(snapshot: &ScanSnapshot, stale_threshold_days: u32, now: i64) -> (st: ProjectStats)
    requires
        sum_of(snapshot.projects@, loc_of()) <= u32::MAX,
    ensures
        stats_hold(st, snapshot.projects@, stale_threshold_days, now as int),
{
    let ps = &snapshot.projects;
    let ghost sv = ps@;
    let n = ps.len();
    let mut names: Vec<String> = Vec::new();
    let mut counts: Vec<usize> = Vec::new();
    let mut health_total: u128 = 0;
    let mut high: usize = 0;
    let mut mid: usize = 0;
    let mut low: usize = 0;
    let mut total_loc: u32 = 0;
    let mut dirty: usize = 0;
    let mut stale_n: usize = 0;
    let mut i: usize = 0;
    while i < n
        invariant
            n == ps.len(),
            sv == ps@,
            i <= n,
            sum_of(sv, loc_of()) <= u32::MAX,
            names.len() == counts.len(),
            texts(names@) == first_occurrences(project_types(sv.subrange(0, i as int))),
            forall|j: int|
                0 <= j < counts.len() ==> #[trigger] counts@[j] == count_where(
                    sv.subrange(0, i as int),
                    type_is(names@[j]@),
                ),
            health_total == sum_of(sv.subrange(0, i as int), health_of()),
            health_total <= 255 * i,
            high == count_where(sv.subrange(0, i as int), health_good()),
            mid == count_where(sv.subrange(0, i as int), health_fair()),
            low == count_where(sv.subrange(0, i as int), health_poor()),
            total_loc == sum_of(sv.subrange(0, i as int), loc_of()),
            dirty == count_where(sv.subrange(0, i as int), dirty_tree()),
            stale_n == count_where(sv.subrange(0, i as int), stale_at(now as int, stale_threshold_days)),
            high <= i,
            mid <= i,
            low <= i,
            dirty <= i,
            stale_n <= i,
        decreases n - i,
    {
        let p = &ps[i];
        let ghost pre = sv.subrange(0, i as int);
        let ghost pre1 = sv.subrange(0, i + 1);
        proof {
            assert(pre1.drop_last() =~= pre);
            assert(pre1.last() == *p);
            assert(project_types(pre1) =~= project_types(pre).push(p.project_type@));
            lemma_first_occurrences(project_types(pre));
        }
        let mut k: usize = 0;
        let mut found = false;
        while k < names.len() && !found
            invariant
                k <= names.len(),
                found ==> k < names.len() && names@[k as int]@ == p.project_type@,
                forall|j: int| 0 <= j < k ==> names@[j]@ != p.project_type@,
            decreases names.len() - k + (if found {
                0int
            } else {
                1int
            }),
        {
            if names[k] == p.project_type {
                found = true;
            } else {
                k = k + 1;
            }
        }
        proof {
            lemma_count_le_len(pre, type_is(p.project_type@));
        }
        let ghost old_names = names@;
        let ghost old_counts = counts@;
        proof {
            assert(texts(old_names) == first_occurrences(project_types(pre)));
        }
        if found {
            proof {
                assert(names@[k as int]@ == p.project_type@);
                assert(texts(old_names)[k as int] == p.project_type@);
                assert(first_occurrences(project_types(pre)).contains(p.project_type@));
                assert(counts@[k as int] <= i);
            }
            let c = counts[k] + 1;
            counts[k] = c;
            proof {
                assert(project_types(pre1).drop_last() =~= project_types(pre));
                assert(project_types(pre1).last() == p.project_type@);
                assert(texts(names@) == texts(old_names));
                assert(texts(names@) == first_occurrences(project_types(pre1)));
            }
        } else {
            proof {
                assert(!first_occurrences(project_types(pre)).contains(p.project_type@)) by {
                    if first_occurrences(project_types(pre)).contains(p.project_type@) {
                        let j = choose|j: int| 0 <= j < texts(old_names).len() && texts(old_names)[j] == p.project_type@;
                        assert(old_names[j]@ == p.project_type@);
                    }
                }
                lemma_count_absent(pre, p.project_type@);
            }
            names.push(p.project_type.clone());
            counts.push(1);
            proof {
                assert(texts(names@) =~= texts(old_names).push(p.project_type@));
                assert(project_types(pre1).drop_last() =~= project_types(pre));
                assert(project_types(pre1).last() == p.project_type@);
            }
        }
        proof {
            assert forall|j: int| 0 <= j < counts.len() implies #[trigger] counts@[j] == count_where(
                pre1,
                type_is(names@[j]@),
            ) by {
                let x = names@[j]@;
                assert(count_where(pre1, type_is(x)) == count_where(pre, type_is(x)) + if type_is(x)(*p) {
                    1nat
                } else {
                    0nat
                });
                if j < old_counts.len() {
                    assert(names@[j] == old_names[j]);
                    assert(old_counts[j] == count_where(pre, type_is(old_names[j]@)));
                    if found && j != k {
                        assert(texts(old_names)[j] == old_names[j]@);
                        assert(texts(old_names)[k as int] == old_names[k as int]@);
                        assert(old_names[j]@ != p.project_type@);
                    }
                    if !found {
                        assert(old_names[j]@ != p.project_type@);
                    }
                } else {
                    assert(x == p.project_type@);
                }
            }
        }
        health_total = health_total + p.health_score as u128;
        if p.health_score >= 80 {
            high = high + 1;
        }
        if p.health_score >= 50 && p.health_score < 80 {
            mid = mid + 1;
        }
        if p.health_score < 50 {
            low = low + 1;
        }
        proof {
            lemma_sum_prefix_bound(sv, loc_of(), i + 1);
        }
        total_loc = total_loc + p.lines_of_code;
        if p.is_dirty {
            dirty = dirty + 1;
        }
        if is_stale(p.last_commit_date, stale_threshold_days, now) {
            stale_n = stale_n + 1;
        }
        i = i + 1;
    }
    assert(sv.subrange(0, n as int) =~= sv);
    let perm = project_order(ps, SortField::Health, false);
    let mut health_sorted: Vec<u8> = Vec::new();
    let mut j: usize = 0;
    while j < perm.len()
        invariant
            j <= perm.len(),
            perm.len() == n,
            n == ps.len(),
            sv == ps@,
            forall|t: int| 0 <= t < perm.len() ==> perm@[t] < n,
            health_sorted@ == healths_in(sv, perm@.subrange(0, j as int)),
        decreases perm.len() - j,
    {
        health_sorted.push(ps[perm[j]].health_score);
        assert(health_sorted@ =~= healths_in(sv, perm@.subrange(0, j + 1)));
        j = j + 1;
    }
    assert(perm@.subrange(0, perm.len() as int) =~= perm@);
    let sorted = reorder(ps, &perm);
    let mut bottom5: Vec<ProjectSnapshot> = Vec::new();
    let mut top5: Vec<ProjectSnapshot> = Vec::new();
    let mut b: usize = 0;
    while b < 5 && b < n
        invariant
            b <= 5,
            b <= n,
            sorted.len() == n,
            bottom5@ == sorted@.subrange(0, b as int),
            top5@ == sorted@.reverse().subrange(0, b as int),
        decreases 5 - b,
    {
        bottom5.push(sorted[b].copy());
        top5.push(sorted[n - 1 - b].copy());
        assert(bottom5@ =~= sorted@.subrange(0, b + 1));
        assert(top5@ =~= sorted@.reverse().subrange(0, b + 1));
        b = b + 1;
    }
    proof {
        if n <= 5 {
            assert(sorted@.subrange(0, n as int) =~= sorted@);
            assert(sorted@.reverse().subrange(0, n as int) =~= sorted@.reverse());
        }
    }
    let median_pair = if n == 0 {
        (0u8, 0u8)
    } else if n % 2 == 1 {
        (health_sorted[n / 2], health_sorted[n / 2])
    } else {
        (health_sorted[n / 2 - 1], health_sorted[n / 2])
    };
    let mut type_distribution: Vec<(String, usize)> = Vec::new();
    let mut t: usize = 0;
    while t < names.len()
        invariant
            t <= names.len(),
            names.len() == counts.len(),
            type_distribution.len() == t,
            forall|x: int| 0 <= x < t ==> #[trigger] type_distribution@[x].0 == names@[x] && type_distribution@[x].1 == counts@[x],
        decreases names.len() - t,
    {
        type_distribution.push((names[t].clone(), counts[t]));
        t = t + 1;
    }
    proof {
        assert(dist_names(type_distribution@) =~= texts(names@));
    }
    ProjectStats {
        total_projects: n,
        type_distribution,
        health_total,
        health_sorted,
        median_pair,
        health_buckets: (high, mid, low),
        top5,
        bottom5,
        total_loc,
        dirty_count: dirty,
        stale_count: stale_n,
    }
}


// ---------------------------------------------------------------------------
// Project type
// ---------------------------------------------------------------------------

/// The kind of project, from its build files or its source files.
#[derive(Debug, Clone, Copy, PartialEq, Eq, Structural)]
pub enum ProjectType {
    Rust,
    JavaScript,
    Go,
    Python,
    JavaKotlin,
    Cpp,
    OCaml,
    Dart,
    Unknown,
}

/// The name shown for a project type.
pub open spec fn project_type_name(t: ProjectType) -> Seq<char> {
    match t {
        ProjectType::Rust => "Rust"@,
        ProjectType::JavaScript => "JavaScript/TypeScript"@,
        ProjectType::Go => "Go"@,
        ProjectType::Python => "Python"@,
        ProjectType::JavaKotlin => "Java/Kotlin"@,
        ProjectType::Cpp => "C/C++"@,
        ProjectType::OCaml => "OCaml"@,
        ProjectType::Dart => "Dart"@,
        ProjectType::Unknown => "Unknown"@,
    }
}

/// Some file name equals `marker`, ignoring ASCII case.
pub open spec fn has_file(names: Seq<Seq<char>>, marker: Seq<char>) -> bool {
    exists|i: int| 0 <= i < names.len() && eq_ignore_ascii_case(#[trigger] names[i], marker)
}

/// The count recorded for extension `e`: the first entry with that key, or
/// zero.
pub open spec fn ext_count(cs: Seq<(String, u32)>, e: Seq<char>) -> nat
    decreases cs.len(),
{
    if cs.len() == 0 {
        0
    } else if cs[0].0@ == e {
        cs[0].1 as nat
    } else {
        ext_count(cs.drop_first(), e)
    }
}

/// Files per language, in the order Rust, JavaScript/TypeScript, Go,
/// Python, Java/Kotlin, C/C++, OCaml, Dart.
pub open spec fn language_tallies(cs: Seq<(String, u32)>) -> Seq<nat> {
    seq![
        ext_count(cs, "rs"@),
        ext_count(cs, "js"@) + ext_count(cs, "ts"@) + ext_count(cs, "jsx"@) + ext_count(cs, "tsx"@),
        ext_count(cs, "go"@),
        ext_count(cs, "py"@),
        ext_count(cs, "java"@) + ext_count(cs, "kt"@) + ext_count(cs, "kts"@),
        ext_count(cs, "c"@) + ext_count(cs, "h"@) + ext_count(cs, "cpp"@) + ext_count(cs, "hpp"@)
            + ext_count(cs, "cc"@) + ext_count(cs, "cxx"@),
        ext_count(cs, "ml"@) + ext_count(cs, "mli"@),
        ext_count(cs, "dart"@),
    ]
}

/// The project type of language `i` of the tallies.
pub open spec fn language_type(i: int) -> ProjectType {
    if i == 0 {
        ProjectType::Rust
    } else if i == 1 {
        ProjectType::JavaScript
    } else if i == 2 {
        ProjectType::Go
    } else if i == 3 {
        ProjectType::Python
    } else if i == 4 {
        ProjectType::JavaKotlin
    } else if i == 5 {
        ProjectType::Cpp
    } else if i == 6 {
        ProjectType::OCaml
    } else {
        ProjectType::Dart
    }
}

/// Language `i` has files and strictly more than every other language.
pub open spec fn leads(t: Seq<nat>, i: int) -> bool {
    0 <= i < t.len() && t[i] > 0 && forall|j: int| 0 <= j < t.len() && j != i ==> t[j] < t[i]
}

/// The type by source files: the language with strictly the most files,
/// `Unknown` when there are none or when two languages tie for most.
pub open spec fn type_by_extensions(cs: Seq<(String, u32)>) -> ProjectType {
    let t = language_tallies(cs);
    if exists|i: int| leads(t, i) {
        language_type(choose|i: int| leads(t, i))
    } else {
        ProjectType::Unknown
    }
}

/// The type of a project directory from its file names and its counts of
/// files per extension: the first build file found in the order Cargo.toml,
/// package.json, go.mod, requirements.txt/setup.py/pyproject.toml,
/// build.gradle/pom.xml, CMakeLists.txt, dune-project, pubspec.yaml (names
/// compared ignoring ASCII case), else by source files.
pub open spec fn type_of_project(names: Seq<Seq<char>>, cs: Seq<(String, u32)>) -> ProjectType {
    if has_file(names, "Cargo.toml"@) {
        ProjectType::Rust
    } else if has_file(names, "package.json"@) {
        ProjectType::JavaScript
    } else if has_file(names, "go.mod"@) {
        ProjectType::Go
    } else if has_file(names, "requirements.txt"@) || has_file(names, "setup.py"@) || has_file(
        names,
        "pyproject.toml"@,
    ) {
        ProjectType::Python
    } else if has_file(names, "build.gradle"@) || has_file(names, "pom.xml"@) {
        ProjectType::JavaKotlin
    } else if has_file(names, "CMakeLists.txt"@) {
        ProjectType::Cpp
    } else if has_file(names, "dune-project"@) {
        ProjectType::OCaml
    } else if has_file(names, "pubspec.yaml"@) {
        ProjectType::Dart
    } else {
        type_by_extensions(cs)
    }
}

proof fn lemma_leads_unique(t: Seq<nat>, i: int, j: int)
    requires
        leads(t, i),
        leads(t, j),
    ensures
        i == j,
{
    if i != j {
        assert(t[j] < t[i]);
        assert(t[i] < t[j]);
    }
}

/// Without a build file, the language whose extensions count strictly more
/// files than every other language's decides the type: `rs` files make it
/// Rust; `js`, `ts`, `jsx`, `tsx` JavaScript/TypeScript; `go` Go; `py`
/// Python; `java`, `kt`, `kts` Java/Kotlin; `c`, `h`, `cpp`, `hpp`, `cc`,
/// `cxx` C/C++; `ml`, `mli` OCaml; `dart` Dart. With no source files at all
/// the type is unknown.
pub proof fn lemma_leading_language_decides(names: Seq<Seq<char>>, cs: Seq<(String, u32)>)
    requires
        !has_file(names, "Cargo.toml"@),
        !has_file(names, "package.json"@),
        !has_file(names, "go.mod"@),
        !has_file(names, "requirements.txt"@),
        !has_file(names, "setup.py"@),
        !has_file(names, "pyproject.toml"@),
        !has_file(names, "build.gradle"@),
        !has_file(names, "pom.xml"@),
        !has_file(names, "CMakeLists.txt"@),
        !has_file(names, "dune-project"@),
        !has_file(names, "pubspec.yaml"@),
    ensures
        ({
            let rs = ext_count(cs, "rs"@);
            let js = ext_count(cs, "js"@) + ext_count(cs, "ts"@) + ext_count(cs, "jsx"@) + ext_count(cs, "tsx"@);
            let go = ext_count(cs, "go"@);
            let py = ext_count(cs, "py"@);
            let jvm = ext_count(cs, "java"@) + ext_count(cs, "kt"@) + ext_count(cs, "kts"@);
            let cpp = ext_count(cs, "c"@) + ext_count(cs, "h"@) + ext_count(cs, "cpp"@) + ext_count(cs, "hpp"@) + ext_count(cs, "cc"@) + ext_count(cs, "cxx"@);
            let ml = ext_count(cs, "ml"@) + ext_count(cs, "mli"@);
            let dart = ext_count(cs, "dart"@);
            &&& (rs > 0 && rs > js && rs > go && rs > py && rs > jvm && rs > cpp && rs > ml && rs > dart) ==> type_of_project(names, cs) == ProjectType::Rust
            &&& (js > 0 && js > rs && js > go && js > py && js > jvm && js > cpp && js > ml && js > dart) ==> type_of_project(names, cs) == ProjectType::JavaScript
            &&& (go > 0 && go > rs && go > js && go > py && go > jvm && go > cpp && go > ml && go > dart) ==> type_of_project(names, cs) == ProjectType::Go
            &&& (py > 0 && py > rs && py > js && py > go && py > jvm && py > cpp && py > ml && py > dart) ==> type_of_project(names, cs) == ProjectType::Python
            &&& (jvm > 0 && jvm > rs && jvm > js && jvm > go && jvm > py && jvm > cpp && jvm > ml && jvm > dart) ==> type_of_project(names, cs) == ProjectType::JavaKotlin
            &&& (cpp > 0 && cpp > rs && cpp > js && cpp > go && cpp > py && cpp > jvm && cpp > ml && cpp > dart) ==> type_of_project(names, cs) == ProjectType::Cpp
            &&& (ml > 0 && ml > rs && ml > js && ml > go && ml > py && ml > jvm && ml > cpp && ml > dart) ==> type_of_project(names, cs) == ProjectType::OCaml
            &&& (dart > 0 && dart > rs && dart > js && dart > go && dart > py && dart > jvm && dart > cpp && dart > ml) ==> type_of_project(names, cs) == ProjectType::Dart
            &&& (rs == 0 && js == 0 && go == 0 && py == 0 && jvm == 0 && cpp == 0 && ml == 0 && dart == 0) ==> type_of_project(names, cs) == ProjectType::Unknown
        }),
{
    let t = language_tallies(cs);
    assert(t.len() == 8);
    if leads(t, 0) {
        let c = choose|i: int| leads(t, i);
        lemma_leads_unique(t, c, 0);
    }
    if leads(t, 1) {
        let c = choose|i: int| leads(t, i);
        lemma_leads_unique(t, c, 1);
    }
    if leads(t, 2) {
        let c = choose|i: int| leads(t, i);
        lemma_leads_unique(t, c, 2);
    }
    if leads(t, 3) {
        let c = choose|i: int| leads(t, i);
        lemma_leads_unique(t, c, 3);
    }
    if leads(t, 4) {
        let c = choose|i: int| leads(t, i);
        lemma_leads_unique(t, c, 4);
    }
    if leads(t, 5) {
        let c = choose|i: int| leads(t, i);
        lemma_leads_unique(t, c, 5);
    }
    if leads(t, 6) {
        let c = choose|i: int| leads(t, i);
        lemma_leads_unique(t, c, 6);
    }
    if leads(t, 7) {
        let c = choose|i: int| leads(t, i);
        lemma_leads_unique(t, c, 7);
    }
    if forall|i: int| 0 <= i < 8 ==> t[i] == 0 {
        if exists|i: int| leads(t, i) {
            let c = choose|i: int| leads(t, i);
            assert(t[c] == 0);
        }
    }
}

fn has_file_named(names: &Vec<String>, marker: &str) -> (r: bool)
    ensures
        r == has_file(texts(names@), marker@),
{
    let mut i: usize = 0;
    while i < names.len()
        invariant
            i <= names.len(),
            forall|j: int| 0 <= j < i ==> !eq_ignore_ascii_case(#[trigger] texts(names@)[j], marker@),
        decreases names.len() - i,
    {
        if eq_ignoring_ascii_case(names[i].as_str(), marker) {
            assert(texts(names@)[i as int] == names@[i as int]@);
            return true;
        }
        assert(texts(names@)[i as int] == names@[i as int]@);
        i = i + 1;
    }
    false
}

/// The count recorded for extension `e`.
pub fn count_for_extension(cs: &Vec<(String, u32)>, e: &str) -> (r: u32)
    ensures
        r == ext_count(cs@, e@),
{
    let key = owned(e);
    let mut i: usize = 0;
    assert(cs@.subrange(0, cs.len() as int) =~= cs@);
    while i < cs.len()
        invariant
            i <= cs.len(),
            key@ == e@,
            ext_count(cs@, e@) == ext_count(cs@.subrange(i as int, cs.len() as int), e@),
        decreases cs.len() - i,
    {
        let ghost rest = cs@.subrange(i as int, cs.len() as int);
        assert(rest[0] == cs@[i as int]);
        if cs[i].0 == key {
            return cs[i].1;
        }
        assert(rest.drop_first() =~= cs@.subrange(i + 1, cs.len() as int));
        i = i + 1;
    }
    0
}

fn language_type_exec(i: usize) -> (t: ProjectType)
    ensures
        t == language_type(i as int),
{
    if i == 0 {
        ProjectType::Rust
    } else if i == 1 {
        ProjectType::JavaScript
    } else if i == 2 {
        ProjectType::Go
    } else if i == 3 {
        ProjectType::Python
    } else if i == 4 {
        ProjectType::JavaKotlin
    } else if i == 5 {
        ProjectType::Cpp
    } else if i == 6 {
        ProjectType::OCaml
    } else {
        ProjectType::Dart
    }
}

/// The type by source files.
pub fn detect_by_extensions(cs: &Vec<(String, u32)>) -> (t: ProjectType)
    ensures
        t == type_by_extensions(cs@),
{
    let c = |e: &str| -> (r: u64)
        ensures
            r == ext_count(cs@, e@),
            r <= u32::MAX,
        { count_for_extension(cs, e) as u64 };
    let mut tallies: Vec<u64> = Vec::new();
    tallies.push(c("rs"));
    tallies.push(c("js") + c("ts") + c("jsx") + c("tsx"));
    tallies.push(c("go"));
    tallies.push(c("py"));
    tallies.push(c("java") + c("kt") + c("kts"));
    tallies.push(c("c") + c("h") + c("cpp") + c("hpp") + c("cc") + c("cxx"));
    tallies.push(c("ml") + c("mli"));
    tallies.push(c("dart"));
    let ghost t = language_tallies(cs@);
    assert forall|i: int| 0 <= i < 8 implies tallies@[i] == t[i] by {}
    let mut max: u64 = tallies[0];
    let mut at: usize = 0;
    let mut i: usize = 1;
    while i < 8
        invariant
            1 <= i <= 8,
            tallies.len() == 8,
            at < i,
            tallies@[at as int] == max,
            forall|k: int| 0 <= k < i ==> tallies@[k] <= max,
        decreases 8 - i,
    {
        if tallies[i] > max {
            max = tallies[i];
            at = i;
        }
        i = i + 1;
    }
    let mut unique = true;
    let mut j: usize = 0;
    while j < 8
        invariant
            j <= 8,
            tallies.len() == 8,
            unique == forall|k: int| 0 <= k < j && k != at ==> tallies@[k] != max,
        decreases 8 - j,
    {
        if j != at && tallies[j] == max {
            unique = false;
        }
        j = j + 1;
    }
    if max == 0 || !unique {
        proof {
            assert(!exists|k: int| leads(t, k)) by {
                if exists|k: int| leads(t, k) {
                    let k = choose|k: int| leads(t, k);
                    assert(tallies@[k] <= max);
                    if k != at as int {
                        assert(t[at as int] < t[k]);
                    } else if max != 0 {
                        let w = choose|w: int| 0 <= w < 8 && w != at && tallies@[w] == max;
                        assert(t[w] < t[k]);
                    }
                }
            }
        }
        ProjectType::Unknown
    } else {
        proof {
            assert forall|k: int| 0 <= k < 8 && k != at implies t[k] < t[at as int] by {
                assert(tallies@[k] <= max);
                assert(tallies@[k] != max);
            }
            assert(leads(t, at as int));
            let k = choose|k: int| leads(t, k);
            if k != at as int {
                assert(t[k] < t[at as int]);
            }
        }
        language_type_exec(at)
    }
}

impl ProjectType {
    /// The name shown for the type.
    pub fn as_str(&self) -> (s: &'static str)
        ensures
            s@ == project_type_name(*self),
    {
        match self {
            ProjectType::Rust => "Rust",
            ProjectType::JavaScript => "JavaScript/TypeScript",
            ProjectType::Go => "Go",
            ProjectType::Python => "Python",
            ProjectType::JavaKotlin => "Java/Kotlin",
            ProjectType::Cpp => "C/C++",
            ProjectType::OCaml => "OCaml",
            ProjectType::Dart => "Dart",
            ProjectType::Unknown => "Unknown",
        }
    }

    /// The type of a project directory from the names of its entries and
    /// its counts of files per extension (the whole tree, skipping hidden
    /// directories, `node_modules` and `target`).
    pub fn detect(filenames: &Vec<String>, extension_counts: &Vec<(String, u32)>) -> (t: ProjectType)
        ensures
            t == type_of_project(texts(filenames@), extension_counts@),
    {
        if has_file_named(filenames, "Cargo.toml") {
            ProjectType::Rust
        } else if has_file_named(filenames, "package.json") {
            ProjectType::JavaScript
        } else if has_file_named(filenames, "go.mod") {
            ProjectType::Go
        } else if has_file_named(filenames, "requirements.txt") || has_file_named(filenames, "setup.py")
            || has_file_named(filenames, "pyproject.toml") {
            ProjectType::Python
        } else if has_file_named(filenames, "build.gradle") || has_file_named(filenames, "pom.xml") {
            ProjectType::JavaKotlin
        } else if has_file_named(filenames, "CMakeLists.txt") {
            ProjectType::Cpp
        } else if has_file_named(filenames, "dune-project") {
            ProjectType::OCaml
        } else if has_file_named(filenames, "pubspec.yaml") {
            ProjectType::Dart
        } else {
            detect_by_extensions(extension_counts)
        }
    }
}


// ---------------------------------------------------------------------------
// File type distribution
// ---------------------------------------------------------------------------

/// The name of file group `g` (0 to 10; 11 is "Other").
pub open spec fn group_name(g: int) -> Seq<char> {
    if g == 0 {
        "Rust"@
    } else if g == 1 {
        "JavaScript/TypeScript"@
    } else if g == 2 {
        "Go"@
    } else if g == 3 {
        "Python"@
    } else if g == 4 {
        "Java/Kotlin"@
    } else if g == 5 {
        "C/C++"@
    } else if g == 6 {
        "OCaml"@
    } else if g == 7 {
        "Dart"@
    } else if g == 8 {
        "Data/Config"@
    } else if g == 9 {
        "Markdown"@
    } else if g == 10 {
        "Web"@
    } else {
        "Other"@
    }
}

/// The files of group `g`.
pub open spec fn group_total(cs: Seq<(String, u32)>, g: int) -> nat {
    if g == 0 {
        ext_count(cs, "rs"@)
    } else if g == 1 {
        ext_count(cs, "js"@) + ext_count(cs, "ts"@) + ext_count(cs, "jsx"@) + ext_count(cs, "tsx"@)
    } else if g == 2 {
        ext_count(cs, "go"@)
    } else if g == 3 {
        ext_count(cs, "py"@)
    } else if g == 4 {
        ext_count(cs, "java"@) + ext_count(cs, "kt"@) + ext_count(cs, "kts"@)
    } else if g == 5 {
        ext_count(cs, "c"@) + ext_count(cs, "h"@) + ext_count(cs, "cpp"@) + ext_count(cs, "hpp"@) + ext_count(cs, "cc"@) + ext_count(cs, "cxx"@)
    } else if g == 6 {
        ext_count(cs, "ml"@) + ext_count(cs, "mli"@)
    } else if g == 7 {
        ext_count(cs, "dart"@)
    } else if g == 8 {
        ext_count(cs, "json"@) + ext_count(cs, "yaml"@) + ext_count(cs, "yml"@) + ext_count(cs, "toml"@)
    } else if g == 9 {
        ext_count(cs, "md"@)
    } else if g == 10 {
        ext_count(cs, "css"@) + ext_count(cs, "html"@)
    } else {
        0
    }
}

/// One of the extensions that belong to a named group.
pub open spec fn known_extension(e: Seq<char>) -> bool {
    e == "rs"@
        || e == "js"@
        || e == "ts"@
        || e == "jsx"@
        || e == "tsx"@
        || e == "go"@
        || e == "py"@
        || e == "java"@
        || e == "kt"@
        || e == "kts"@
        || e == "c"@
        || e == "h"@
        || e == "cpp"@
        || e == "hpp"@
        || e == "cc"@
        || e == "cxx"@
        || e == "ml"@
        || e == "mli"@
        || e == "dart"@
        || e == "json"@
        || e == "yaml"@
        || e == "yml"@
        || e == "toml"@
        || e == "md"@
        || e == "css"@
        || e == "html"@
}

/// Files of extensions that belong to no group.
pub open spec fn other_total(cs: Seq<(String, u32)>) -> nat
    decreases cs.len(),
{
    if cs.len() == 0 {
        0
    } else {
        other_total(cs.drop_last()) + if known_extension(cs.last().0@) {
            0nat
        } else {
            cs.last().1 as nat
        }
    }
}

/// All files counted.
pub open spec fn total_files_of(cs: Seq<(String, u32)>) -> nat
    decreases cs.len(),
{
    if cs.len() == 0 {
        0
    } else {
        total_files_of(cs.drop_last()) + cs.last().1 as nat
    }
}

/// The groups among the first `k` that have files, in group order.
pub open spec fn present_groups(cs: Seq<(String, u32)>, k: int) -> Seq<(Seq<char>, nat)>
    decreases k,
{
    if k <= 0 {
        Seq::empty()
    } else if group_total(cs, k - 1) > 0 {
        present_groups(cs, k - 1).push((group_name(k - 1), group_total(cs, k - 1)))
    } else {
        present_groups(cs, k - 1)
    }
}

/// The groups with files, in group order, then "Other" when some files
/// belong to no group.
pub open spec fn file_groups(cs: Seq<(String, u32)>) -> Seq<(Seq<char>, nat)> {
    present_groups(cs, 11) + if other_total(cs) > 0 {
        seq![("Other"@, other_total(cs))]
    } else {
        Seq::empty()
    }
}

/// The sort keys of groups: their file counts.
pub open spec fn group_keys(gs: Seq<(Seq<char>, nat)>) -> Seq<KeyValue> {
    gs.map_values(|g: (Seq<char>, nat)| KeyValue::Num(g.1 as int))
}

/// The value of a list of groups.
pub open spec fn group_entries(gs: Seq<(String, u64)>) -> Seq<(Seq<char>, nat)> {
    gs.map_values(|g: (String, u64)| (g.0@, g.1 as nat))
}

/// Files per group of file types.
#[derive(Debug)]
pub struct FileTypeDistribution {
    /// Group name and number of files, most files first.
    pub groups: Vec<(String, u64)>,
    /// All files counted; a group's percentage is its share of these.
    pub total_files: u32,
}

fn is_known_extension(e: &str) -> (r: bool)
    ensures
        r == known_extension(e@),
{
    str_eq(e, "rs")
        || str_eq(e, "js")
        || str_eq(e, "ts")
        || str_eq(e, "jsx")
        || str_eq(e, "tsx")
        || str_eq(e, "go")
        || str_eq(e, "py")
        || str_eq(e, "java")
        || str_eq(e, "kt")
        || str_eq(e, "kts")
        || str_eq(e, "c")
        || str_eq(e, "h")
        || str_eq(e, "cpp")
        || str_eq(e, "hpp")
        || str_eq(e, "cc")
        || str_eq(e, "cxx")
        || str_eq(e, "ml")
        || str_eq(e, "mli")
        || str_eq(e, "dart")
        || str_eq(e, "json")
        || str_eq(e, "yaml")
        || str_eq(e, "yml")
        || str_eq(e, "toml")
        || str_eq(e, "md")
        || str_eq(e, "css")
        || str_eq(e, "html")
}

fn group_name_exec(g: usize) -> (s: &'static str)
    ensures
        s@ == group_name(g as int),
{
    if g == 0 {
        "Rust"
    } else if g == 1 {
        "JavaScript/TypeScript"
    } else if g == 2 {
        "Go"
    } else if g == 3 {
        "Python"
    } else if g == 4 {
        "Java/Kotlin"
    } else if g == 5 {
        "C/C++"
    } else if g == 6 {
        "OCaml"
    } else if g == 7 {
        "Dart"
    } else if g == 8 {
        "Data/Config"
    } else if g == 9 {
        "Markdown"
    } else if g == 10 {
        "Web"
    } else {
        "Other"
    }
}

proof fn lemma_other_le_total(cs: Seq<(String, u32)>)
    ensures
        other_total(cs) <= total_files_of(cs),
    decreases cs.len(),
{
    if cs.len() > 0 {
        lemma_other_le_total(cs.drop_last());
    }
}

/// The files of a directory grouped by type (source languages, data and
/// configuration, Markdown, web, other), from its counts of files per
/// extension; groups without files are left out, and the groups are stably
/// sorted by number of files, most first.
pub fn file_type_distribution(extension_counts: &Vec<(String, u32)>) -> (d: FileTypeDistribution)
    requires
        total_files_of(extension_counts@) <= u32::MAX,
    ensures
        d.total_files == total_files_of(extension_counts@),
        exists|perm: Seq<usize>|
            stable_order(group_keys(file_groups(extension_counts@)), true, perm) && group_entries(d.groups@)
                == reordered(file_groups(extension_counts@), perm),
{
    let cs = extension_counts;
    let c = |e: &str| -> (r: u64)
        ensures
            r == ext_count(cs@, e@),
            r <= u32::MAX,
        { count_for_extension(cs, e) as u64 };
    let mut totals: Vec<u64> = Vec::new();
    totals.push(c("rs"));
    totals.push(c("js") + c("ts") + c("jsx") + c("tsx"));
    totals.push(c("go"));
    totals.push(c("py"));
    totals.push(c("java") + c("kt") + c("kts"));
    totals.push(c("c") + c("h") + c("cpp") + c("hpp") + c("cc") + c("cxx"));
    totals.push(c("ml") + c("mli"));
    totals.push(c("dart"));
    totals.push(c("json") + c("yaml") + c("yml") + c("toml"));
    totals.push(c("md"));
    totals.push(c("css") + c("html"));
    assert forall|g: int| 0 <= g < 11 implies totals@[g] == group_total(cs@, g) by {}
    let mut groups: Vec<(String, u64)> = Vec::new();
    let mut g: usize = 0;
    while g < 11
        invariant
            g <= 11,
            totals.len() == 11,
            forall|k: int| 0 <= k < 11 ==> totals@[k] == group_total(cs@, k),
            group_entries(groups@) == present_groups(cs@, g as int),
        decreases 11 - g,
    {
        if totals[g] > 0 {
            groups.push((owned(group_name_exec(g)), totals[g]));
            assert(group_entries(groups@) =~= present_groups(cs@, g as int).push(
                (group_name(g as int), group_total(cs@, g as int)),
            ));
        }
        g = g + 1;
    }
    let mut other: u64 = 0;
    let mut total: u64 = 0;
    let mut i: usize = 0;
    while i < cs.len()
        invariant
            i <= cs.len(),
            total_files_of(cs@) <= u32::MAX,
            other == other_total(cs@.subrange(0, i as int)),
            total == total_files_of(cs@.subrange(0, i as int)),
            total <= total_files_of(cs@),
        decreases cs.len() - i,
    {
        let ghost pre1 = cs@.subrange(0, i + 1);
        assert(pre1.drop_last() =~= cs@.subrange(0, i as int));
        proof {
            lemma_other_le_total(pre1);
            lemma_total_prefix(cs@, i + 1);
        }
        if !is_known_extension(cs[i].0.as_str()) {
            other = other + cs[i].1 as u64;
        }
        total = total + cs[i].1 as u64;
        i = i + 1;
    }
    assert(cs@.subrange(0, cs.len() as int) =~= cs@);
    let ghost present = group_entries(groups@);
    if other > 0 {
        groups.push((owned("Other"), other));
        assert(group_entries(groups@) =~= file_groups(cs@));
    } else {
        assert(group_entries(groups@) =~= file_groups(cs@));
    }
    let mut keys: Vec<SortKey> = Vec::new();
    let mut k: usize = 0;
    while k < groups.len()
        invariant
            k <= groups.len(),
            keys.len() == k,
            forall|j: int| 0 <= j < k ==> #[trigger] keys@[j].value() == KeyValue::Num(groups@[j].1 as int),
        decreases groups.len() - k,
    {
        keys.push(SortKey::Num(groups[k].1 as i128));
        k = k + 1;
    }
    assert(key_values(keys@) =~= group_keys(group_entries(groups@)));
    let perm = stable_order_of(&keys, true);
    let mut sorted: Vec<(String, u64)> = Vec::new();
    let mut m: usize = 0;
    while m < perm.len()
        invariant
            m <= perm.len(),
            perm.len() == groups.len(),
            forall|t: int| 0 <= t < perm.len() ==> perm@[t] < groups.len(),
            group_entries(sorted@) == reordered(group_entries(groups@), perm@.subrange(0, m as int)),
        decreases perm.len() - m,
    {
        let e = &groups[perm[m]];
        let name = e.0.clone();
        let ghost before = sorted@;
        sorted.push((name, e.1));
        assert(group_entries(groups@)[perm@[m as int] as int] == (e.0@, e.1 as nat));
        assert(group_entries(sorted@) =~= group_entries(before).push((e.0@, e.1 as nat)));
        assert(group_entries(sorted@) =~= reordered(group_entries(groups@), perm@.subrange(0, m + 1)));
        m = m + 1;
    }
    assert(perm@.subrange(0, perm.len() as int) =~= perm@);
    FileTypeDistribution { groups: sorted, total_files: total as u32 }
}

proof fn lemma_total_prefix(cs: Seq<(String, u32)>, i: int)
    requires
        0 <= i <= cs.len(),
    ensures
        total_files_of(cs.subrange(0, i)) <= total_files_of(cs),
    decreases cs.len() - i,
{
    if i < cs.len() {
        lemma_total_prefix(cs, i + 1);
        assert(cs.subrange(0, i + 1).drop_last() =~= cs.subrange(0, i));
    } else {
        assert(cs.subrange(0, i) =~= cs);
    }
}


// ---------------------------------------------------------------------------
// Directories
// ---------------------------------------------------------------------------

/// An entry of a directory listing.
pub struct DirEntryInfo {
    pub path: String,
    pub is_dir: bool,
    /// The entry holds a `.git` directory.
    pub is_git: bool,
}

/// The entry's name starts with `.`.
pub open spec fn hidden(path: Seq<char>) -> bool {
    match file_name_of(path) {
        Some(n) => n.len() > 0 && n[0] == '.',
        None => false,
    }
}

/// The paths of the directories among `es` (hidden ones left out when
/// `skip_hidden`) that are git projects (`git`) or not (`!git`), in order.
pub open spec fn classified(es: Seq<DirEntryInfo>, skip_hidden: bool, git: bool) -> Seq<Seq<char>>
    decreases es.len(),
{
    if es.len() == 0 {
        Seq::empty()
    } else {
        let e = es.last();
        if e.is_dir && !(skip_hidden && hidden(e.path@)) && e.is_git == git {
            classified(es.drop_last(), skip_hidden, git).push(e.path@)
        } else {
            classified(es.drop_last(), skip_hidden, git)
        }
    }
}


proof fn lemma_last_segment_after_slash(d: Seq<char>, n: Seq<char>)
    requires
        !n.contains('/'),
    ensures
        last_segment(d + seq!['/'] + n) == n,
    decreases n.len(),
{
    if n.len() == 0 {
        assert(d + seq!['/'] + n =~= d.push('/'));
    } else {
        let init = n.drop_last();
        assert(!init.contains('/')) by {
            if init.contains('/') {
                let k = choose|k: int| 0 <= k < init.len() && init[k] == '/';
                assert(n[k] == '/');
            }
        }
        lemma_last_segment_after_slash(d, init);
        assert((d + seq!['/'] + n).drop_last() =~= d + seq!['/'] + init);
        assert((d + seq!['/'] + n).last() == n.last());
        assert(n.last() != '/') by {
            assert(n[n.len() - 1] == n.last());
        }
        assert(init.push(n.last()) =~= n);
    }
}

/// The entry `name` of directory `dir` (its path `dir/name`, with `name` a
/// plain component: not empty, no `/`, not `.` or `..`) is hidden exactly
/// when `name` starts with `.`, whatever `dir` is.
pub proof fn lemma_hidden_by_own_name(dir: Seq<char>, name: Seq<char>)
    requires
        name.len() > 0,
        !name.contains('/'),
        name != seq!['.'],
        name != seq!['.', '.'],
    ensures
        file_name_of(dir + seq!['/'] + name) == Some(name),
        hidden(dir + seq!['/'] + name) == (name[0] == '.'),
{
    let p = dir + seq!['/'] + name;
    lemma_last_segment_after_slash(dir, name);
    assert(p.last() == name.last());
    assert(name.last() != '/') by {
        assert(name[name.len() - 1] == name.last());
    }
}

proof fn lemma_classified_contains(es: Seq<DirEntryInfo>, skip_hidden: bool, git: bool, k: int)
    requires
        0 <= k < es.len(),
        es[k].is_dir,
        !(skip_hidden && hidden(es[k].path@)),
        es[k].is_git == git,
    ensures
        classified(es, skip_hidden, git).contains(es[k].path@),
    decreases es.len(),
{
    let init = es.drop_last();
    if k == es.len() - 1 {
        assert(classified(es, skip_hidden, git) == classified(init, skip_hidden, git).push(es[k].path@));
        assert(classified(es, skip_hidden, git)[classified(init, skip_hidden, git).len() as int] == es[k].path@);
    } else {
        assert(init[k] == es[k]);
        lemma_classified_contains(init, skip_hidden, git, k);
        lemma_push_contains(classified(init, skip_hidden, git), es.last().path@, es[k].path@);
    }
}

/// A directory `dir/name` that holds `.git` is listed among the projects
/// unless its own name starts with `.` and hidden entries are skipped; the
/// parent path `dir` (`.` included) never hides it.
pub proof fn lemma_git_dir_listed(es: Seq<DirEntryInfo>, skip_hidden: bool, k: int, dir: Seq<char>, name: Seq<char>)
    requires
        0 <= k < es.len(),
        es[k].is_dir,
        es[k].is_git,
        es[k].path@ == dir + seq!['/'] + name,
        name.len() > 0,
        !name.contains('/'),
        name != seq!['.'],
        name != seq!['.', '.'],
        !(skip_hidden && name[0] == '.'),
    ensures
        classified(es, skip_hidden, true).contains(es[k].path@),
{
    lemma_hidden_by_own_name(dir, name);
    lemma_classified_contains(es, skip_hidden, true, k);
}

fn is_hidden(path: &str) -> (r: bool)
    ensures
        r == hidden(path@),
{
    let p = chars_of(path);
    match file_name(&p) {
        Some(n) => n.len() > 0 && n[0] == '.',
        None => false,
    }
}

/// Splits the subdirectories of a listing into git projects and other
/// directories, each in listing order; files are left out, and so are
/// directories whose name starts with `.` when `skip_hidden`.
pub fn classify_dirs(entries: &Vec<DirEntryInfo>, skip_hidden: bool) -> (r: (Vec<String>, Vec<String>))
    ensures
        texts(r.0@) == classified(entries@, skip_hidden, true),
        texts(r.1@) == classified(entries@, skip_hidden, false),
{
    let mut projects: Vec<String> = Vec::new();
    let mut others: Vec<String> = Vec::new();
    let mut i: usize = 0;
    while i < entries.len()
        invariant
            i <= entries.len(),
            texts(projects@) == classified(entries@.subrange(0, i as int), skip_hidden, true),
            texts(others@) == classified(entries@.subrange(0, i as int), skip_hidden, false),
        decreases entries.len() - i,
    {
        let e = &entries[i];
        let ghost pre1 = entries@.subrange(0, i + 1);
        assert(pre1.drop_last() =~= entries@.subrange(0, i as int));
        assert(pre1.last() == *e);
        if e.is_dir {
            if !(skip_hidden && is_hidden(e.path.as_str())) {
                if e.is_git {
                    let ghost before = projects@;
                    projects.push(e.path.clone());
                    assert(texts(projects@) =~= texts(before).push(e.path@));
                } else {
                    let ghost before = others@;
                    others.push(e.path.clone());
                    assert(texts(others@) =~= texts(before).push(e.path@));
                }
            }
        }
        i = i + 1;
    }
    assert(entries@.subrange(0, entries.len() as int) =~= entries@);
    (projects, others)
}


// ---------------------------------------------------------------------------
// Repository facts and the project record
// ---------------------------------------------------------------------------

/// What git shows of a repository's head.
#[derive(Debug)]
pub struct GitHealth {
    pub branch: String,
    pub is_dirty: bool,
    pub unpushed_commits: u32,
    /// Seconds since the epoch; 0 (the default date) when unknown.
    pub last_commit_date: i64,
}

impl GitHealth {
    /// A repository without commits: branch `HEAD (no commits)`, clean,
    /// nothing unpushed, the default date.
    pub fn without_commits() -> (g: Self)
        ensures
            g.branch@ == "HEAD (no commits)"@,
            !g.is_dirty,
            g.unpushed_commits == 0,
            g.last_commit_date == 0,
    {
        GitHealth {
            branch: String::from_str("HEAD (no commits)"),
            is_dirty: false,
            unpushed_commits: 0,
            last_commit_date: 0,
        }
    }
}

/// The branch name shown for a head: its short name, or `unknown`.
pub fn branch_or_unknown(shorthand: Option<&str>) -> (r: String)
    ensures
        r@ == match shorthand {
            Some(b) => b@,
            None => "unknown"@,
        },
{
    match shorthand {
        Some(b) => String::from_str(b),
        None => String::from_str("unknown"),
    }
}

/// A time in seconds as a date: itself where chrono can represent it, else
/// the default date (0).
pub open spec fn date_or_default(secs: i64) -> i64 {
    if chrono_timestamp_valid(secs) {
        secs
    } else {
        0
    }
}

/// The date of a commit, or the default date when there is no commit or
/// its time is out of range.
pub fn commit_date(secs: Option<i64>) -> (d: i64)
    ensures
        d == match secs {
            Some(t) => date_or_default(t),
            None => 0,
        },
{
    match secs {
        Some(t) => if timestamp_valid(t) { t } else { 0 },
        None => 0,
    }
}

/// The date a directory was last modified, from its modification time in
/// whole seconds after the epoch (`None` when it could not be read or lies
/// before the epoch, which counts as 0): the default date when out of
/// chrono's range.
pub fn modified_date(secs: Option<u64>) -> (d: i64)
    ensures
        d == date_or_default(match secs {
            Some(t) => t as i64,
            None => 0,
        }),
{
    let t: i64 = match secs {
        Some(t) => t as i64,
        None => 0,
    };
    if timestamp_valid(t) {
        t
    } else {
        0
    }
}

/// The record of a git project at time `now`: its path, type, head facts,
/// last modification, lines of code, and the health score they give.
pub fn project_snapshot(
    path: &str,
    project_type: ProjectType,
    git: GitHealth,
    last_modified_date: i64,
    lines_of_code: u32,
    stale_threshold_days: u32,
    now: i64,
) -> (p: ProjectSnapshot)
    ensures
        p.path@ == path@,
        p.project_type@ == project_type_name(project_type),
        p.git_branch@ == git.branch@,
        p.is_dirty == git.is_dirty,
        p.unpushed_commits == git.unpushed_commits,
        p.last_commit_date == git.last_commit_date,
        p.last_modified_date == last_modified_date,
        p.lines_of_code == lines_of_code,
        p.health_score as int == health_score(
            now as int,
            git.is_dirty,
            git.unpushed_commits,
            git.last_commit_date as int,
            last_modified_date as int,
            lines_of_code,
            stale_threshold_days,
        ),
{
    let health = compute_health_score(
        git.is_dirty,
        git.unpushed_commits,
        git.last_commit_date,
        last_modified_date,
        lines_of_code,
        stale_threshold_days,
        now,
    );
    ProjectSnapshot {
        path: String::from_str(path),
        project_type: String::from_str(project_type.as_str()),
        git_branch: git.branch,
        is_dirty: git.is_dirty,
        unpushed_commits: git.unpushed_commits,
        last_commit_date: git.last_commit_date,
        last_modified_date,
        lines_of_code,
        health_score: health,
    }
}

/// Whether a directory is a git repository: among its entries (each a
/// name and whether it is a directory) is a directory named `.git`. A plain
/// file named `.git` does not count.
pub fn is_git_repo(entries: &Vec<(String, bool)>) -> (r: bool)
    ensures
        r == exists|i: int| 0 <= i < entries.len() && (#[trigger] entries@[i]).0@ == ".git"@ && entries@[i].1,
{
    let mut i: usize = 0;
    while i < entries.len()
        invariant
            i <= entries.len(),
            forall|j: int| 0 <= j < i ==> !((#[trigger] entries@[j]).0@ == ".git"@ && entries@[j].1),
        decreases entries.len() - i,
    {
        if entries[i].1 && str_eq(entries[i].0.as_str(), ".git") {
            return true;
        }
        i = i + 1;
    }
    false
}

/// A directory the file walks skip: hidden (name starting with `.`),
/// `node_modules` or `target`.
pub open spec fn skipped_dir(name: Seq<char>) -> bool {
    (name.len() > 0 && name[0] == '.') || name == "node_modules"@ || name == "target"@
}

/// Whether the file walks skip a directory of this name.
pub fn is_skipped_dir(name: &str) -> (r: bool)
    ensures
        r == skipped_dir(name@),
{
    let cs = chars_of(name);
    (cs.len() > 0 && cs[0] == '.') || str_eq(name, "node_modules") || str_eq(name, "target")
}

/// Whether files with this extension count toward the lines of code.
pub fn countable_extension(ext: &str) -> (r: bool)
    ensures
        r == known_extension(ext@),
{
    is_known_extension(ext)
}

/// The newlines in some text.
pub open spec fn newlines(s: Seq<char>) -> nat
    decreases s.len(),
{
    if s.len() == 0 {
        0
    } else {
        newlines(s.drop_last()) + if s.last() == '\n' { 1nat } else { 0nat }
    }
}

/// The lines of some text as `str::lines` counts them: one per newline,
/// plus a last line that has none.
pub open spec fn line_total(s: Seq<char>) -> nat {
    newlines(s) + if s.len() > 0 && s.last() != '\n' { 1nat } else { 0nat }
}

/// The number of lines of a file's text.
pub fn line_count(content: &str) -> (n: usize)
    ensures
        n == line_total(content@),
{
    let cs = chars_of(content);
    let mut n: usize = 0;
    let mut i: usize = 0;
    while i < cs.len()
        invariant
            i <= cs.len(),
            cs@ == content@,
            n == newlines(cs@.subrange(0, i as int)),
            n <= i,
        decreases cs.len() - i,
    {
        assert(cs@.subrange(0, i + 1).drop_last() =~= cs@.subrange(0, i as int));
        if cs[i] == '\n' {
            n = n + 1;
        }
        i = i + 1;
    }
    assert(cs@.subrange(0, cs.len() as int) =~= cs@);
    if cs.len() > 0 && cs[cs.len() - 1] != '\n' {
        proof {
            lemma_newlines_le(cs@.drop_last());
        }
        n = n + 1;
    }
    n
}

proof fn lemma_newlines_le(s: Seq<char>)
    ensures
        newlines(s) <= s.len(),
    decreases s.len(),
{
    if s.len() > 0 {
        lemma_newlines_le(s.drop_last());
    }
}

/// The lines of code of a project: the line counts of its countable files
/// added up.
pub fn total_lines(counts: &Vec<u32>) -> (t: u32)
    requires
        counts@.fold_left(0int, |acc: int, c: u32| acc + c) <= u32::MAX,
    ensures
        t == counts@.fold_left(0int, |acc: int, c: u32| acc + c),
{
    let mut t: u32 = 0;
    let mut i: usize = 0;
    while i < counts.len()
        invariant
            i <= counts.len(),
            counts@.fold_left(0int, |acc: int, c: u32| acc + c) <= u32::MAX,
            t == counts@.subrange(0, i as int).fold_left(0int, |acc: int, c: u32| acc + c),
        decreases counts.len() - i,
    {
        let ghost pre1 = counts@.subrange(0, i + 1);
        assert(pre1.drop_last() =~= counts@.subrange(0, i as int));
        proof {
            lemma_fold_prefix(counts@, i + 1);
        }
        t = t + counts[i];
        i = i + 1;
    }
    assert(counts@.subrange(0, counts.len() as int) =~= counts@);
    t
}

proof fn lemma_fold_prefix(s: Seq<u32>, k: int)
    requires
        0 <= k <= s.len(),
    ensures
        s.subrange(0, k).fold_left(0int, |acc: int, c: u32| acc + c) <= s.fold_left(0int, |acc: int, c: u32| acc + c),
    decreases s.len() - k,
{
    if k < s.len() {
        lemma_fold_prefix(s, k + 1);
        assert(s.subrange(0, k + 1).drop_last() =~= s.subrange(0, k));
    } else {
        assert(s.subrange(0, k) =~= s);
    }
}


/// Each distinct extension with the number of files that have it, in order
/// of first appearance.
pub fn tally_extensions(exts: &Vec<String>) -> (r: Vec<(String, u32)>)
    requires
        exts.len() <= u32::MAX,
    ensures
        r@.map_values(|e: (String, u32)| e.0@) == first_occurrences(texts(exts@)),
        forall|k: int|
            0 <= k < r.len() ==> (#[trigger] r@[k]).1 == count_where(texts(exts@), is_text(r@[k].0@)),
{
    let mut r: Vec<(String, u32)> = Vec::new();
    let mut i: usize = 0;
    while i < exts.len()
        invariant
            i <= exts.len(),
            exts.len() <= u32::MAX,
            r@.map_values(|e: (String, u32)| e.0@) == first_occurrences(texts(exts@.subrange(0, i as int))),
            forall|k: int|
                0 <= k < r.len() ==> (#[trigger] r@[k]).1 == count_where(
                    texts(exts@.subrange(0, i as int)),
                    is_text(r@[k].0@),
                ) && r@[k].1 <= i,
        decreases exts.len() - i,
    {
        let ghost pre = texts(exts@.subrange(0, i as int));
        let ghost pre1 = texts(exts@.subrange(0, i + 1));
        assert(pre1.drop_last() =~= pre);
        assert(pre1.last() == exts@[i as int]@);
        let ghost names = r@.map_values(|e: (String, u32)| e.0@);
        proof {
            lemma_first_occurrences(pre);
        }
        let e = exts[i].as_str();
        let mut found: Option<usize> = None;
        let mut k: usize = 0;
        while k < r.len()
            invariant
                k <= r.len(),
                names == r@.map_values(|e: (String, u32)| e.0@),
                found matches Some(j) ==> j < r.len() && r@[j as int].0@ == e@,
                found is None ==> forall|j: int| 0 <= j < k ==> r@[j].0@ != e@,
            decreases r.len() - k,
        {
            if found.is_none() && str_eq(r[k].0.as_str(), e) {
                found = Some(k);
            }
            k = k + 1;
        }
        let ghost old_r = r@;
        match found {
            Some(j) => {
                let (name, c) = (r[j].0.clone(), r[j].1);
                r.set(j, (name, c + 1));
                proof {
                    assert(names[j as int] == e@);
                    assert(first_occurrences(pre).contains(e@));
                    assert(r@.map_values(|e: (String, u32)| e.0@) =~= names);
                    assert forall|q: int| 0 <= q < r.len() implies (#[trigger] r@[q]).1 == count_where(
                        pre1,
                        is_text(r@[q].0@),
                    ) && r@[q].1 <= i + 1 by {
                        assert(old_r[q].0@ == r@[q].0@);
                        if q != j {
                            assert(names[q] != names[j as int]) by {
                                assert(crate::text::distinct_texts(first_occurrences(pre)));
                            }
                        }
                    }
                }
            },
            None => {
                r.push((exts[i].clone(), 1));
                proof {
                    assert(!names.contains(e@)) by {
                        if names.contains(e@) {
                            let j = choose|j: int| 0 <= j < names.len() && names[j] == e@;
                            assert(old_r[j].0@ == e@);
                        }
                    }
                    assert(r@.map_values(|e: (String, u32)| e.0@) =~= names.push(e@));
                    assert(!pre.contains(e@));
                    assert(count_where(pre, is_text(e@)) == 0) by {
                        lemma_no_count_of_absent(pre, e@);
                    }
                    assert forall|q: int| 0 <= q < r.len() implies (#[trigger] r@[q]).1 == count_where(
                        pre1,
                        is_text(r@[q].0@),
                    ) && r@[q].1 <= i + 1 by {
                        if q < old_r.len() {
                            assert(old_r[q] == r@[q]);
                            assert(names[q] != e@);
                        }
                    }
                }
            },
        }
        i = i + 1;
    }
    assert(exts@.subrange(0, exts.len() as int) =~= exts@);
    r
}

/// The text is `e`.
pub open spec fn is_text(e: Seq<char>) -> spec_fn(Seq<char>) -> bool {
    |x: Seq<char>| x == e
}

proof fn lemma_no_count_of_absent(s: Seq<Seq<char>>, e: Seq<char>)
    requires
        !s.contains(e),
    ensures
        count_where(s, is_text(e)) == 0,
    decreases s.len(),
{
    if s.len() > 0 {
        assert(!s.drop_last().contains(e)) by {
            if s.drop_last().contains(e) {
                let j = choose|j: int| 0 <= j < s.drop_last().len() && s.drop_last()[j] == e;
                assert(s[j] == e);
            }
        }
        lemma_no_count_of_absent(s.drop_last(), e);
        assert(s.last() != e) by {
            assert(s[s.len() - 1] == s.last());
        }
    }
}

// ---------------------------------------------------------------------------
// Commit activity
// ---------------------------------------------------------------------------

/// One commit of a repository's history.
pub struct CommitRecord {
    /// The author's name, when it is valid UTF-8.
    pub author: Option<String>,
    /// Commit time, seconds since the epoch.
    pub time: i64,
}

/// Commit counts of a repository.
#[derive(Debug)]
pub struct CommitStats {
    pub total: u32,
    pub last_30_days: u32,
    pub last_90_days: u32,
    pub last_year: u32,
    pub authors: u32,
}

/// The commit was made at most `days` days before `now` (or after it), at a
/// time chrono can represent.
pub open spec fn within_days(now: int, days: int) -> spec_fn(CommitRecord) -> bool {
    |c: CommitRecord| chrono_timestamp_valid(c.time) && days_between(now, c.time as int) <= days
}

/// The author names of the commits that have one, in order.
pub open spec fn author_names(cs: Seq<CommitRecord>) -> Seq<Seq<char>>
    decreases cs.len(),
{
    if cs.len() == 0 {
        Seq::empty()
    } else {
        match cs.last().author {
            Some(a) => author_names(cs.drop_last()).push(a@),
            None => author_names(cs.drop_last()),
        }
    }
}

/// Counts the commits of a history: all of them, those of the last 30, 90
/// and 365 days (by whole days before `now`), and the distinct author names.
pub fn commit_stats(commits: &Vec<CommitRecord>, now: i64) -> (st: CommitStats)
    requires
        commits.len() <= u32::MAX,
    ensures
        st.total == commits.len(),
        st.last_30_days == count_where(commits@, within_days(now as int, 30)),
        st.last_90_days == count_where(commits@, within_days(now as int, 90)),
        st.last_year == count_where(commits@, within_days(now as int, 365)),
        st.authors == first_occurrences(author_names(commits@)).len(),
{
    let mut last_30: u32 = 0;
    let mut last_90: u32 = 0;
    let mut last_year: u32 = 0;
    let mut authors: Vec<String> = Vec::new();
    let mut i: usize = 0;
    while i < commits.len()
        invariant
            i <= commits.len(),
            commits.len() <= u32::MAX,
            last_30 == count_where(commits@.subrange(0, i as int), within_days(now as int, 30)),
            last_90 == count_where(commits@.subrange(0, i as int), within_days(now as int, 90)),
            last_year == count_where(commits@.subrange(0, i as int), within_days(now as int, 365)),
            texts(authors@) == first_occurrences(author_names(commits@.subrange(0, i as int))),
            last_30 <= i,
            last_90 <= i,
            last_year <= i,
            authors.len() <= i,
        decreases commits.len() - i,
    {
        let c = &commits[i];
        let ghost pre = commits@.subrange(0, i as int);
        let ghost pre1 = commits@.subrange(0, i + 1);
        assert(pre1.drop_last() =~= pre);
        assert(pre1.last() == *c);
        proof {
            lemma_first_occurrences(author_names(pre));
            lemma_first_occurrences_len(author_names(pre));
        }
        match &c.author {
            Some(a) => {
                assert(author_names(pre1) == author_names(pre).push(a@));
                assert(author_names(pre1).drop_last() =~= author_names(pre));
                assert(author_names(pre1).last() == a@);
                if !contains_text(&authors, a.as_str()) {
                    let ghost before = authors@;
                    let owned_name = a.clone();
                    assert(owned_name@ == a@);
                    authors.push(owned_name);
                    assert(texts(authors@) =~= texts(before).push(a@));
                } else {
                    assert(first_occurrences(author_names(pre)).contains(a@));
                }
            },
            None => {
                assert(author_names(pre1) == author_names(pre));
            },
        }
        if timestamp_valid(c.time) {
            let days = days_since(now, c.time);
            if days <= 30 {
                last_30 = last_30 + 1;
            }
            if days <= 90 {
                last_90 = last_90 + 1;
            }
            if days <= 365 {
                last_year = last_year + 1;
            }
        }
        i = i + 1;
    }
    assert(commits@.subrange(0, commits.len() as int) =~= commits@);
    CommitStats {
        total: commits.len() as u32,
        last_30_days: last_30,
        last_90_days: last_90,
        last_year,
        authors: authors.len() as u32,
    }
}

proof fn lemma_first_occurrences_len(s: Seq<Seq<char>>)
    ensures
        first_occurrences(s).len() <= s.len(),
    decreases s.len(),
{
    if s.len() > 0 {
        lemma_first_occurrences_len(s.drop_last());
    }
}

/// Repository state beyond the health score.
#[derive(Debug)]
pub struct GitExtraHealth {
    pub stash_count: u32,
    pub untracked_files: u32,
    pub behind_upstream: u32,
}

} // verus!
