//! What `trend` computes from the stored snapshots: which of them fall in
//! the time range, the value each gives for the chosen metric, and the
//! date labels under the chart.
use vstd::prelude::*;

use crate::ordering::positions;
use crate::snapshot::{ProjectSnapshot, ScanSnapshot};
use crate::text::{chars_of, ends_with_chars, has_suffix, str_eq, string_of, utf8_len, utf8_len_capped};

verus! {

/// What a trend follows.
#[derive(Debug, Clone, Copy, PartialEq, Eq, Structural)]
pub enum TrendMetric {
    Health,
    Loc,
}

/// The metric a `--metric` value names: `loc`, else the health score.
pub open spec fn metric_of(m: Option<Seq<char>>) -> TrendMetric {
    match m {
        Some(t) => if t == "loc"@ { TrendMetric::Loc } else { TrendMetric::Health },
        None => TrendMetric::Health,
    }
}

/// Reads `--metric`.
pub fn parse_metric(m: Option<&str>) -> (r: TrendMetric)
    ensures
        r == metric_of(match m { Some(t) => Some(t@), None => None }),
{
    match m {
        Some(t) => if str_eq(t, "loc") { TrendMetric::Loc } else { TrendMetric::Health },
        None => TrendMetric::Health,
    }
}

impl TrendMetric {
    /// The chart's title word.
    pub open spec fn spec_label(self) -> Seq<char> {
        match self {
            TrendMetric::Health => "Health Score"@,
            TrendMetric::Loc => "LOC"@,
        }
    }

    /// The chart's title word.
    pub fn label(&self) -> (s: &'static str)
        ensures
            s@ == self.spec_label(),
    {
        match self {
            TrendMetric::Health => "Health Score",
            TrendMetric::Loc => "LOC",
        }
    }
}

/// The snapshot was taken at or after the cutoff `days` days before `now`.
pub open spec fn in_window(snaps: Seq<ScanSnapshot>, now: int, days: Option<u32>) -> spec_fn(int) -> bool {
    |i: int| match days {
        Some(d) => snaps[i].timestamp as int >= now - d as int * 86400,
        None => true,
    }
}

/// The snapshots a trend uses, as positions: all of them, or with `days`
/// those taken in the last `days` days before `now`.
pub fn snapshots_in_range(snapshots: &Vec<ScanSnapshot>, now: i64, days: Option<u32>) -> (r: Vec<usize>)
    ensures
        r@ == positions(snapshots.len() as nat, in_window(snapshots@, now as int, days)),
{
    let ghost keep = in_window(snapshots@, now as int, days);
    let cutoff: i128 = match days {
        Some(d) => now as i128 - d as i128 * 86400,
        None => 0,
    };
    let mut r: Vec<usize> = Vec::new();
    let mut i: usize = 0;
    while i < snapshots.len()
        invariant
            i <= snapshots.len(),
            keep == in_window(snapshots@, now as int, days),
            days matches Some(d) ==> cutoff == now - d as int * 86400,
            r@ == positions(i as nat, keep),
        decreases snapshots.len() - i,
    {
        let take = match days {
            Some(_) => snapshots[i].timestamp as i128 >= cutoff,
            None => true,
        };
        if take {
            r.push(i);
        }
        assert(positions((i + 1) as nat, keep) == if keep(i as int) {
            positions(i as nat, keep).push(i)
        } else {
            positions(i as nat, keep)
        });
        i = i + 1;
    }
    r
}

/// A project answers to the path a trend asks for: the same path, or one
/// that ends with it.
pub open spec fn answers_to(p: ProjectSnapshot, target: Seq<char>) -> bool {
    p.path@ == target || has_suffix(p.path@, target)
}

/// The first project of a list that answers to `target`.
pub open spec fn first_answering(ps: Seq<ProjectSnapshot>, target: Seq<char>) -> Option<int>
    decreases ps.len(),
{
    if ps.len() == 0 {
        None
    } else if answers_to(ps[0], target) {
        Some(0)
    } else {
        match first_answering(ps.drop_first(), target) {
            Some(k) => Some(k + 1),
            None => None,
        }
    }
}

/// A project's value for a metric.
pub open spec fn metric_value(p: ProjectSnapshot, metric: TrendMetric) -> nat {
    match metric {
        TrendMetric::Loc => p.lines_of_code as nat,
        TrendMetric::Health => p.health_score as nat,
    }
}

/// The values of all projects for a metric, added up.
pub open spec fn metric_sum(ps: Seq<ProjectSnapshot>, metric: TrendMetric) -> nat
    decreases ps.len(),
{
    if ps.len() == 0 {
        0
    } else {
        metric_sum(ps.drop_last(), metric) + metric_value(ps.last(), metric)
    }
}

/// One point of a trend: the value is `total / count` (the average health
/// of all projects, or a plain value with `count` 1).
#[derive(Debug)]
pub struct TrendSample {
    pub timestamp: i64,
    pub total: u128,
    pub count: u64,
}

/// A sample as numbers.
pub open spec fn sample_view(s: TrendSample) -> (int, nat, nat) {
    (s.timestamp as int, s.total as nat, s.count as nat)
}

/// What a snapshot gives: for one project, its value when the snapshot has
/// a project answering to the path (else nothing); for all projects, the
/// sum of lines of code, or the sum of health scores over their number.
pub open spec fn sample_of(s: ScanSnapshot, path: Option<Seq<char>>, metric: TrendMetric) -> Option<(int, nat, nat)> {
    match path {
        Some(target) => match first_answering(s.projects@, target) {
            Some(k) => Some((s.timestamp as int, metric_value(s.projects@[k], metric), 1nat)),
            None => None,
        },
        None => match metric {
            TrendMetric::Loc => Some((s.timestamp as int, metric_sum(s.projects@, metric), 1nat)),
            TrendMetric::Health => Some((s.timestamp as int, metric_sum(s.projects@, metric), s.projects.len() as nat)),
        },
    }
}

/// The samples of the picked snapshots, in order.
pub open spec fn samples_of(
    snaps: Seq<ScanSnapshot>,
    picks: Seq<usize>,
    path: Option<Seq<char>>,
    metric: TrendMetric,
) -> Seq<(int, nat, nat)>
    decreases picks.len(),
{
    if picks.len() == 0 {
        Seq::empty()
    } else {
        let before = samples_of(snaps, picks.drop_last(), path, metric);
        match sample_of(snaps[picks.last() as int], path, metric) {
            Some(x) => before.push(x),
            None => before,
        }
    }
}

proof fn lemma_first_answering_bounds(ps: Seq<ProjectSnapshot>, target: Seq<char>)
    ensures
        first_answering(ps, target) matches Some(k) ==> 0 <= k < ps.len() && answers_to(ps[k], target),
    decreases ps.len(),
{
    if ps.len() > 0 && !answers_to(ps[0], target) {
        lemma_first_answering_bounds(ps.drop_first(), target);
    }
}

proof fn lemma_first_answering_is_first(ps: Seq<ProjectSnapshot>, target: Seq<char>, m: int)
    requires
        first_answering(ps, target) matches Some(k) && 0 <= m < k,
    ensures
        !answers_to(ps[m], target),
    decreases ps.len(),
{
    lemma_first_answering_bounds(ps, target);
    if m > 0 {
        lemma_first_answering_is_first(ps.drop_first(), target, m - 1);
        assert(ps.drop_first()[m - 1] == ps[m]);
    }
}

/// In the trend of one project every point has `count` 1 and comes from a
/// picked snapshot: its time is that snapshot's, and its `total` is the
/// lines of code (or the health score) of the first project in the
/// snapshot whose path is the asked path or ends with it.
pub proof fn lemma_project_trend_points(
    snaps: Seq<ScanSnapshot>,
    picks: Seq<usize>,
    target: Seq<char>,
    metric: TrendMetric,
    i: int,
)
    requires
        forall|k: int| 0 <= k < picks.len() ==> picks[k] < snaps.len(),
        0 <= i < samples_of(snaps, picks, Some(target), metric).len(),
    ensures
        samples_of(snaps, picks, Some(target), metric)[i].2 == 1,
        exists|q: int, j: int|
            #![trigger snaps[picks[q] as int].projects@[j]]
            0 <= q < picks.len() && 0 <= j < snaps[picks[q] as int].projects.len()
            && (snaps[picks[q] as int].projects@[j].path@ == target
                || has_suffix(snaps[picks[q] as int].projects@[j].path@, target))
            && (forall|m: int| 0 <= m < j ==> !(#[trigger] snaps[picks[q] as int].projects@[m].path@ == target
                || has_suffix(snaps[picks[q] as int].projects@[m].path@, target)))
            && samples_of(snaps, picks, Some(target), metric)[i].0 == snaps[picks[q] as int].timestamp as int
            && samples_of(snaps, picks, Some(target), metric)[i].1 == match metric {
                TrendMetric::Loc => snaps[picks[q] as int].projects@[j].lines_of_code as nat,
                TrendMetric::Health => snaps[picks[q] as int].projects@[j].health_score as nat,
            },
    decreases picks.len(),
{
    let init = picks.drop_last();
    let before = samples_of(snaps, init, Some(target), metric);
    let s = snaps[picks.last() as int];
    assert forall|k: int| 0 <= k < init.len() implies init[k] < snaps.len() by {
        assert(init[k] == picks[k]);
    }
    if i < before.len() {
        lemma_project_trend_points(snaps, init, target, metric, i);
        assert(samples_of(snaps, picks, Some(target), metric)[i] == before[i]);
        let (q, j) = choose|q: int, j: int|
            #![trigger snaps[init[q] as int].projects@[j]]
            0 <= q < init.len() && 0 <= j < snaps[init[q] as int].projects.len()
            && (snaps[init[q] as int].projects@[j].path@ == target
                || has_suffix(snaps[init[q] as int].projects@[j].path@, target))
            && (forall|m: int| 0 <= m < j ==> !(#[trigger] snaps[init[q] as int].projects@[m].path@ == target
                || has_suffix(snaps[init[q] as int].projects@[m].path@, target)))
            && before[i].0 == snaps[init[q] as int].timestamp as int
            && before[i].1 == match metric {
                TrendMetric::Loc => snaps[init[q] as int].projects@[j].lines_of_code as nat,
                TrendMetric::Health => snaps[init[q] as int].projects@[j].health_score as nat,
            };
        assert(init[q] == picks[q]);
        assert(snaps[picks[q] as int].projects@[j] == snaps[init[q] as int].projects@[j]);
    } else {
        let k = first_answering(s.projects@, target)->0;
        lemma_first_answering_bounds(s.projects@, target);
        assert(samples_of(snaps, picks, Some(target), metric) == before.push(
            (s.timestamp as int, metric_value(s.projects@[k], metric), 1nat),
        ));
        assert forall|m: int| 0 <= m < k implies !(#[trigger] s.projects@[m].path@ == target
            || has_suffix(s.projects@[m].path@, target)) by {
            lemma_first_answering_is_first(s.projects@, target, m);
        }
        let q = picks.len() - 1;
        assert(picks[q] == picks.last());
        assert(snaps[picks[q] as int].projects@[k] == s.projects@[k]);
    }
}

fn first_answering_in(ps: &Vec<ProjectSnapshot>, target: &str) -> (r: Option<usize>)
    ensures
        match first_answering(ps@, target@) {
            Some(k) => r == Some(k as usize),
            None => r is None,
        },
{
    let t = chars_of(target);
    let mut i: usize = 0;
    assert(ps@.subrange(0, ps.len() as int) =~= ps@);
    while i < ps.len()
        invariant
            i <= ps.len(),
            t@ == target@,
            first_answering(ps@, target@) == match first_answering(ps@.subrange(i as int, ps.len() as int), target@) {
                Some(k) => Some(k + i),
                None => None,
            },
        decreases ps.len() - i,
    {
        let ghost rest = ps@.subrange(i as int, ps.len() as int);
        assert(rest.drop_first() =~= ps@.subrange(i + 1, ps.len() as int));
        assert(rest[0] == ps@[i as int]);
        let path = chars_of(ps[i].path.as_str());
        if str_eq(ps[i].path.as_str(), target) || ends_with_chars(&path, &t) {
            return Some(i);
        }
        i = i + 1;
    }
    None
}

fn value_of(p: &ProjectSnapshot, metric: TrendMetric) -> (v: u32)
    ensures
        v == metric_value(*p, metric),
{
    match metric {
        TrendMetric::Loc => p.lines_of_code,
        TrendMetric::Health => p.health_score as u32,
    }
}

fn sum_of_values(ps: &Vec<ProjectSnapshot>, metric: TrendMetric) -> (t: u128)
    ensures
        t == metric_sum(ps@, metric),
{
    let mut t: u128 = 0;
    let mut i: usize = 0;
    while i < ps.len()
        invariant
            i <= ps.len(),
            t == metric_sum(ps@.subrange(0, i as int), metric),
            t <= i * 0x1_0000_0000,
        decreases ps.len() - i,
    {
        assert(ps@.subrange(0, i + 1).drop_last() =~= ps@.subrange(0, i as int));
        t = t + value_of(&ps[i], metric) as u128;
        i = i + 1;
    }
    assert(ps@.subrange(0, ps.len() as int) =~= ps@);
    t
}

/// The points of a trend over the picked snapshots, for one project
/// (`path`) or for all of them.
pub fn trend_samples(
    snapshots: &Vec<ScanSnapshot>,
    picks: &Vec<usize>,
    path: Option<&str>,
    metric: TrendMetric,
) -> (r: Vec<TrendSample>)
    requires
        forall|k: int| 0 <= k < picks.len() ==> picks@[k] < snapshots.len(),
    ensures
        r@.map_values(|s: TrendSample| sample_view(s)) == samples_of(
            snapshots@,
            picks@,
            match path { Some(t) => Some(t@), None => None },
            metric,
        ),
{
    let ghost target = match path { Some(t) => Some(t@), None => None };
    let mut r: Vec<TrendSample> = Vec::new();
    let mut k: usize = 0;
    while k < picks.len()
        invariant
            k <= picks.len(),
            forall|k: int| 0 <= k < picks.len() ==> picks@[k] < snapshots.len(),
            target == match path { Some(t) => Some(t@), None => None },
            r@.map_values(|s: TrendSample| sample_view(s)) == samples_of(
                snapshots@,
                picks@.subrange(0, k as int),
                target,
                metric,
            ),
        decreases picks.len() - k,
    {
        let ghost old_r = r@;
        let ghost before = samples_of(snapshots@, picks@.subrange(0, k as int), target, metric);
        assert(picks@.subrange(0, k + 1).drop_last() =~= picks@.subrange(0, k as int));
        assert(picks@.subrange(0, k + 1).last() == picks@[k as int]);
        let s = &snapshots[picks[k]];
        assert(samples_of(snapshots@, picks@.subrange(0, k + 1), target, metric) == match sample_of(*s, target, metric) {
            Some(x) => before.push(x),
            None => before,
        });
        match path {
            Some(t) => {
                proof {
                    lemma_first_answering_bounds(s.projects@, t@);
                }
                match first_answering_in(&s.projects, t) {
                    Some(j) => {
                        r.push(TrendSample {
                            timestamp: s.timestamp,
                            total: value_of(&s.projects[j], metric) as u128,
                            count: 1,
                        });
                    },
                    None => {},
                }
            },
            None => {
                let total = sum_of_values(&s.projects, metric);
                let count: u64 = match metric {
                    TrendMetric::Loc => 1,
                    TrendMetric::Health => s.projects.len() as u64,
                };
                r.push(TrendSample { timestamp: s.timestamp, total, count });
            },
        }
        assert(r@.map_values(|s: TrendSample| sample_view(s)) =~= samples_of(
            snapshots@,
            picks@.subrange(0, k + 1),
            target,
            metric,
        ));
        k = k + 1;
    }
    assert(picks@.subrange(0, picks.len() as int) =~= picks@);
    r
}

/// The character at column `i` of the label line under a chart `width`
/// columns wide: the first date from the left edge, the last date ending at
/// the right edge (where they meet, the last one wins), spaces elsewhere.
/// The last date starts `width` minus its length in bytes from the left.
pub open spec fn label_char(first: Seq<char>, last: Seq<char>, width: nat, i: int) -> char {
    let start: int = if utf8_len(last) <= width { width - utf8_len(last) } else { 0 };
    if start <= i < start + last.len() {
        last[i - start]
    } else if i < first.len() {
        first[i]
    } else {
        ' '
    }
}

/// The label line under a chart: empty with no dates.
pub open spec fn x_axis_labels(dates: Seq<Seq<char>>, width: nat) -> Seq<char> {
    if dates.len() == 0 {
        Seq::empty()
    } else {
        Seq::new(width, |i: int| label_char(dates[0], dates.last(), width, i))
    }
}

/// The label line under a chart `width` columns wide, from the dates of
/// its points.
pub fn format_x_axis_labels(dates: &Vec<String>, width: usize) -> (r: String)
    ensures
        r@ == x_axis_labels(dates@.map_values(|d: String| d@), width as nat),
{
    if dates.len() == 0 {
        return String::new();
    }
    let ghost ds = dates@.map_values(|d: String| d@);
    let first = chars_of(dates[0].as_str());
    let last = chars_of(dates[dates.len() - 1].as_str());
    assert(ds[0] == first@ && ds.last() == last@);
    let mut labels: Vec<char> = Vec::new();
    let mut i: usize = 0;
    while i < width
        invariant
            i <= width,
            labels.len() == i,
            forall|j: int| 0 <= j < i ==> labels@[j] == (if j < first.len() { first@[j] } else { ' ' }),
        decreases width - i,
    {
        if i < first.len() {
            labels.push(first[i]);
        } else {
            labels.push(' ');
        }
        i = i + 1;
    }
    let byte_len = utf8_len_capped(&last, width);
    let start: usize = if byte_len <= width { width - byte_len } else { 0 };
    assert(start == (if utf8_len(last@) <= width { width - utf8_len(last@) } else { 0 }));
    let mut j: usize = 0;
    while j < last.len()
        invariant
            j <= last.len(),
            labels.len() == width,
            start == (if utf8_len(last@) <= width { width - utf8_len(last@) } else { 0int }),
            forall|p: int|
                0 <= p < width ==> labels@[p] == (if start <= p < start + j {
                    last@[p - start]
                } else if p < first.len() {
                    first@[p]
                } else {
                    ' '
                }),
        decreases last.len() - j,
    {
        if start < width && j < width - start {
            labels.set(start + j, last[j]);
        }
        j = j + 1;
    }
    let r = string_of(&labels);
    assert(r@ =~= x_axis_labels(ds, width as nat));
    r
}


/// A trend needs at least two points: with fewer snapshots (in all, or in
/// the time range) only a message is shown.
pub fn enough_for_trend(count: usize) -> (r: bool)
    ensures
        r == (count >= 2),
{
    count >= 2
}

} // verus!
