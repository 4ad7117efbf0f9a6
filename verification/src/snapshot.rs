//! Scan snapshots and the comparison of two of them.
//!
//! Dates are seconds since the Unix epoch (UTC); `0` is the default date
//! (1970-01-01 00:00:00).
use vstd::prelude::*;

use crate::config::{path_join, projector_dir_of, snapshot_dir};
use crate::display::{chrono_stamp, stamp_text};
use crate::ordering::sort_texts;
use crate::subcmd::report::select;
use crate::text::{
    bool_string, bool_text, chars_of, decimal, distinct_texts, ends_with_chars, has_suffix, lex_le, owned, texts,
    u64_text,
};
use crate::time::chrono_timestamp_valid;

verus! {

/// What one scan recorded of one project.
#[derive(Debug)]
pub struct ProjectSnapshot {
    pub path: String,
    pub project_type: String,
    pub git_branch: String,
    pub is_dirty: bool,
    pub unpushed_commits: u32,
    pub last_commit_date: i64,
    pub last_modified_date: i64,
    pub lines_of_code: u32,
    pub health_score: u8,
}

/// One scan: when it ran, the directory it scanned, and the projects found.
#[derive(Debug)]
pub struct ScanSnapshot {
    pub timestamp: i64,
    pub scanned_path: String,
    pub projects: Vec<ProjectSnapshot>,
}

impl ProjectSnapshot {
    /// An identical copy.
    pub fn copy(&self) -> (r: Self)
        ensures
            r == *self,
    {
        ProjectSnapshot {
            path: self.path.clone(),
            project_type: self.project_type.clone(),
            git_branch: self.git_branch.clone(),
            is_dirty: self.is_dirty,
            unpushed_commits: self.unpushed_commits,
            last_commit_date: self.last_commit_date,
            last_modified_date: self.last_modified_date,
            lines_of_code: self.lines_of_code,
            health_score: self.health_score,
        }
    }
}
/// The project fields that a comparison of snapshots reports on.
#[derive(Debug, Clone, Copy, PartialEq, Eq, Structural)]
pub enum DiffField {
    HealthScore,
    IsDirty,
    LinesOfCode,
    UnpushedCommits,
    GitBranch,
    ProjectType,
    Project,
}

impl DiffField {
    /// How the field is named in reports.
    pub open spec fn spec_name(self) -> Seq<char> {
        match self {
            DiffField::HealthScore => "health_score"@,
            DiffField::IsDirty => "is_dirty"@,
            DiffField::LinesOfCode => "lines_of_code"@,
            DiffField::UnpushedCommits => "unpushed_commits"@,
            DiffField::GitBranch => "git_branch"@,
            DiffField::ProjectType => "project_type"@,
            DiffField::Project => "project"@,
        }
    }

    /// How the field is named in reports (its `Display`).
    pub fn name(&self) -> (s: &'static str)
        ensures
            s@ == self.spec_name(),
    {
        match self {
            DiffField::HealthScore => "health_score",
            DiffField::IsDirty => "is_dirty",
            DiffField::LinesOfCode => "lines_of_code",
            DiffField::UnpushedCommits => "unpushed_commits",
            DiffField::GitBranch => "git_branch",
            DiffField::ProjectType => "project_type",
            DiffField::Project => "project",
        }
    }
}

/// One change between two snapshots.
#[derive(Debug)]
pub struct SnapshotDiff {
    pub path: String,
    pub field: DiffField,
    pub old_value: String,
    pub new_value: String,
}

/// The mathematical value of a `SnapshotDiff`.
pub struct DiffEntry {
    pub path: Seq<char>,
    pub field: DiffField,
    pub old_value: Seq<char>,
    pub new_value: Seq<char>,
}

impl View for SnapshotDiff {
    type V = DiffEntry;

    open spec fn view(&self) -> DiffEntry {
        DiffEntry {
            path: self.path@,
            field: self.field,
            old_value: self.old_value@,
            new_value: self.new_value@,
        }
    }
}

/// The values of some diffs.
pub open spec fn diff_entries(ds: Seq<SnapshotDiff>) -> Seq<DiffEntry> {
    ds.map_values(|d: SnapshotDiff| d@)
}

/// The first project of `ps` recorded under `path`.
pub open spec fn find_by_path(ps: Seq<ProjectSnapshot>, path: Seq<char>) -> Option<ProjectSnapshot>
    decreases ps.len(),
{
    if ps.len() == 0 {
        None
    } else if ps[0].path@ == path {
        Some(ps[0])
    } else {
        find_by_path(ps.drop_first(), path)
    }
}

/// A change entry when `changed`, nothing otherwise.
pub open spec fn change_if(
    changed: bool,
    path: Seq<char>,
    field: DiffField,
    old_value: Seq<char>,
    new_value: Seq<char>,
) -> Seq<DiffEntry> {
    if changed {
        seq![DiffEntry { path, field, old_value, new_value }]
    } else {
        Seq::empty()
    }
}

/// The changes of one project between its previous and its latest record,
/// field by field in a fixed order.
pub open spec fn field_changes(prev: ProjectSnapshot, proj: ProjectSnapshot) -> Seq<DiffEntry> {
    let path = proj.path@;
    change_if(
        prev.health_score != proj.health_score,
        path,
        DiffField::HealthScore,
        decimal(prev.health_score as nat),
        decimal(proj.health_score as nat),
    ) + change_if(
        prev.is_dirty != proj.is_dirty,
        path,
        DiffField::IsDirty,
        bool_text(prev.is_dirty),
        bool_text(proj.is_dirty),
    ) + change_if(
        prev.lines_of_code != proj.lines_of_code,
        path,
        DiffField::LinesOfCode,
        decimal(prev.lines_of_code as nat),
        decimal(proj.lines_of_code as nat),
    ) + change_if(
        prev.unpushed_commits != proj.unpushed_commits,
        path,
        DiffField::UnpushedCommits,
        decimal(prev.unpushed_commits as nat),
        decimal(proj.unpushed_commits as nat),
    ) + change_if(
        prev.git_branch@ != proj.git_branch@,
        path,
        DiffField::GitBranch,
        prev.git_branch@,
        proj.git_branch@,
    ) + change_if(
        prev.project_type@ != proj.project_type@,
        path,
        DiffField::ProjectType,
        prev.project_type@,
        proj.project_type@,
    )
}

/// What the comparison reports of one project of the latest snapshot: its
/// field changes, or that it is new.
pub open spec fn changes_of(proj: ProjectSnapshot, previous: Seq<ProjectSnapshot>) -> Seq<DiffEntry> {
    match find_by_path(previous, proj.path@) {
        Some(prev) => field_changes(prev, proj),
        None => seq![
            DiffEntry {
                path: proj.path@,
                field: DiffField::Project,
                old_value: Seq::empty(),
                new_value: "new"@,
            },
        ],
    }
}

/// The reports on the projects of `latest`, in order.
pub open spec fn latest_changes(latest: Seq<ProjectSnapshot>, previous: Seq<ProjectSnapshot>) -> Seq<
    DiffEntry,
>
    decreases latest.len(),
{
    if latest.len() == 0 {
        Seq::empty()
    } else {
        latest_changes(latest.drop_last(), previous) + changes_of(latest.last(), previous)
    }
}

/// The reports on the projects of `previous` that `latest` no longer has.
pub open spec fn removed_projects(latest: Seq<ProjectSnapshot>, previous: Seq<ProjectSnapshot>) -> Seq<
    DiffEntry,
>
    decreases previous.len(),
{
    if previous.len() == 0 {
        Seq::empty()
    } else {
        let prev = previous.last();
        removed_projects(latest, previous.drop_last()) + if find_by_path(latest, prev.path@) is None {
            seq![
                DiffEntry {
                    path: prev.path@,
                    field: DiffField::Project,
                    old_value: "removed"@,
                    new_value: Seq::empty(),
                },
            ]
        } else {
            Seq::empty()
        }
    }
}

/// Everything a comparison of `latest` with `previous` reports.
pub open spec fn snapshot_changes(latest: Seq<ProjectSnapshot>, previous: Seq<ProjectSnapshot>) -> Seq<
    DiffEntry,
> {
    latest_changes(latest, previous) + removed_projects(latest, previous)
}


/// The projects of `ps` have pairwise distinct paths.
pub open spec fn distinct_paths(ps: Seq<ProjectSnapshot>) -> bool {
    forall|i: int, j: int| 0 <= i < j < ps.len() ==> ps[i].path@ != ps[j].path@
}

/// A project whose path no earlier project has is the one found by its path.
pub proof fn lemma_find_own_path(ps: Seq<ProjectSnapshot>, k: int)
    requires
        0 <= k < ps.len(),
        forall|j: int| 0 <= j < k ==> ps[j].path@ != ps[k].path@,
    ensures
        find_by_path(ps, ps[k].path@) == Some(ps[k]),
    decreases k,
{
    if k > 0 {
        lemma_find_own_path(ps.drop_first(), k - 1);
    }
}

proof fn lemma_no_latest_changes(t: Seq<ProjectSnapshot>, s: Seq<ProjectSnapshot>)
    requires
        forall|i: int| 0 <= i < t.len() ==> find_by_path(s, #[trigger] t[i].path@) == Some(t[i]),
    ensures
        latest_changes(t, s) == Seq::<DiffEntry>::empty(),
    decreases t.len(),
{
    if t.len() > 0 {
        lemma_no_latest_changes(t.drop_last(), s);
        let p = t.last();
        assert(find_by_path(s, t[t.len() - 1].path@) == Some(t[t.len() - 1]));
        assert(field_changes(p, p) =~= Seq::<DiffEntry>::empty());
        assert(latest_changes(t, s) =~= Seq::<DiffEntry>::empty());
    }
}

proof fn lemma_no_removed(s: Seq<ProjectSnapshot>, t: Seq<ProjectSnapshot>)
    requires
        forall|i: int| 0 <= i < t.len() ==> find_by_path(s, #[trigger] t[i].path@) is Some,
    ensures
        removed_projects(s, t) == Seq::<DiffEntry>::empty(),
    decreases t.len(),
{
    if t.len() > 0 {
        lemma_no_removed(s, t.drop_last());
        assert(find_by_path(s, t[t.len() - 1].path@) is Some);
        assert(removed_projects(s, t) =~= Seq::<DiffEntry>::empty());
    }
}

/// Comparing a snapshot whose projects have distinct paths with itself
/// reports no change.
pub proof fn lemma_diff_with_itself_is_empty(s: Seq<ProjectSnapshot>)
    requires
        distinct_paths(s),
    ensures
        snapshot_changes(s, s) == Seq::<DiffEntry>::empty(),
{
    assert forall|i: int| 0 <= i < s.len() implies find_by_path(s, #[trigger] s[i].path@) == Some(
        s[i],
    ) by {
        lemma_find_own_path(s, i);
    }
    lemma_no_latest_changes(s, s);
    lemma_no_removed(s, s);
    assert(snapshot_changes(s, s) =~= Seq::<DiffEntry>::empty());
}

/// Index of the first project of `ps` recorded under `path`.
fn position_by_path(ps: &Vec<ProjectSnapshot>, path: &String) -> (r: Option<usize>)
    ensures
        r matches Some(i) ==> i < ps.len() && find_by_path(ps@, path@) == Some(ps@[i as int]),
        r is None ==> find_by_path(ps@, path@) is None,
{
    let mut i: usize = 0;
    assert(ps@.subrange(0, ps.len() as int) =~= ps@);
    while i < ps.len()
        invariant
            i <= ps.len(),
            find_by_path(ps@, path@) == find_by_path(ps@.subrange(i as int, ps.len() as int), path@),
        decreases ps.len() - i,
    {
        let ghost rest = ps@.subrange(i as int, ps.len() as int);
        assert(rest[0] == ps@[i as int]);
        if ps[i].path == *path {
            return Some(i);
        }
        assert(rest.drop_first() =~= ps@.subrange(i + 1, ps.len() as int));
        i = i + 1;
    }
    None
}

/// Appends one change entry.
fn push_change(out: &mut Vec<SnapshotDiff>, path: &String, field: DiffField, old_value: String, new_value: String)
    ensures
        diff_entries(final(out)@) == diff_entries(old(out)@) + seq![
            DiffEntry { path: path@, field, old_value: old_value@, new_value: new_value@ },
        ],
{
    out.push(SnapshotDiff { path: path.clone(), field, old_value, new_value });
    assert(diff_entries(final(out)@) =~= diff_entries(old(out)@) + seq![
        DiffEntry { path: path@, field, old_value: old_value@, new_value: new_value@ },
    ]);
}

/// Appends one change entry when `changed`.
fn push_if(
    out: &mut Vec<SnapshotDiff>,
    changed: bool,
    path: &String,
    field: DiffField,
    old_value: String,
    new_value: String,
)
    ensures
        diff_entries(final(out)@) == diff_entries(old(out)@) + change_if(
            changed,
            path@,
            field,
            old_value@,
            new_value@,
        ),
{
    if changed {
        push_change(out, path, field, old_value, new_value);
    } else {
        assert(diff_entries(old(out)@) + change_if(changed, path@, field, old_value@, new_value@)
            =~= diff_entries(old(out)@));
    }
}

/// Appends the field changes of one project.
#[verifier::rlimit(80)]
#[verifier::spinoff_prover]
fn push_field_changes(out: &mut Vec<SnapshotDiff>, prev: &ProjectSnapshot, proj: &ProjectSnapshot)
    ensures
        diff_entries(final(out)@) == diff_entries(old(out)@) + field_changes(*prev, *proj),
{
    let ghost s0 = diff_entries(out@);
    let path = &proj.path;
    push_if(out, prev.health_score != proj.health_score, path, DiffField::HealthScore,
        u64_text(prev.health_score as u64), u64_text(proj.health_score as u64));
    let ghost s1 = diff_entries(out@);
    push_if(out, prev.is_dirty != proj.is_dirty, path, DiffField::IsDirty,
        bool_string(prev.is_dirty), bool_string(proj.is_dirty));
    let ghost s2 = diff_entries(out@);
    push_if(out, prev.lines_of_code != proj.lines_of_code, path, DiffField::LinesOfCode,
        u64_text(prev.lines_of_code as u64), u64_text(proj.lines_of_code as u64));
    let ghost s3 = diff_entries(out@);
    push_if(out, prev.unpushed_commits != proj.unpushed_commits, path, DiffField::UnpushedCommits,
        u64_text(prev.unpushed_commits as u64), u64_text(proj.unpushed_commits as u64));
    let ghost s4 = diff_entries(out@);
    push_if(out, prev.git_branch != proj.git_branch, path, DiffField::GitBranch,
        prev.git_branch.clone(), proj.git_branch.clone());
    let ghost s5 = diff_entries(out@);
    push_if(out, prev.project_type != proj.project_type, path, DiffField::ProjectType,
        prev.project_type.clone(), proj.project_type.clone());
    let ghost s6 = diff_entries(out@);
    proof {
        let a1 = change_if(prev.health_score != proj.health_score, path@, DiffField::HealthScore,
            decimal(prev.health_score as nat), decimal(proj.health_score as nat));
        let a2 = change_if(prev.is_dirty != proj.is_dirty, path@, DiffField::IsDirty,
            bool_text(prev.is_dirty), bool_text(proj.is_dirty));
        let a3 = change_if(prev.lines_of_code != proj.lines_of_code, path@, DiffField::LinesOfCode,
            decimal(prev.lines_of_code as nat), decimal(proj.lines_of_code as nat));
        let a4 = change_if(prev.unpushed_commits != proj.unpushed_commits, path@,
            DiffField::UnpushedCommits, decimal(prev.unpushed_commits as nat),
            decimal(proj.unpushed_commits as nat));
        let a5 = change_if(prev.git_branch@ != proj.git_branch@, path@, DiffField::GitBranch,
            prev.git_branch@, proj.git_branch@);
        let a6 = change_if(prev.project_type@ != proj.project_type@, path@, DiffField::ProjectType,
            prev.project_type@, proj.project_type@);
        assert(s1 == s0 + a1);
        assert(s2 == s1 + a2);
        assert(s3 == s2 + a3);
        assert(s4 == s3 + a4);
        assert(s5 == s4 + a5);
        assert(s6 == s5 + a6);
        assert(s2 =~= s0 + (a1 + a2));
        assert(s3 =~= s0 + (a1 + a2 + a3));
        assert(s4 =~= s0 + (a1 + a2 + a3 + a4));
        assert(s5 =~= s0 + (a1 + a2 + a3 + a4 + a5));
        assert(s6 =~= s0 + (a1 + a2 + a3 + a4 + a5 + a6));
        assert(field_changes(*prev, *proj) == a1 + a2 + a3 + a4 + a5 + a6);
    }
}

/// A file name of the snapshot directory is a snapshot: it has the
/// extension `json` (a name that is only `.json` has none).
pub open spec fn is_snapshot_file(name: Seq<char>) -> bool {
    name.len() > 5 && has_suffix(name, ".json"@)
}

/// Name `i` of the list is a snapshot file.
pub open spec fn snapshot_at(names: Seq<Seq<char>>) -> spec_fn(int) -> bool {
    |i: int| is_snapshot_file(names[i])
}

/// `l` lists the snapshot files among `names` in ascending order, that is
/// from the oldest to the newest (the names are their timestamps).
pub open spec fn snapshot_listing(l: Seq<Seq<char>>, names: Seq<Seq<char>>) -> bool {
    &&& l.len() == select(names, snapshot_at(names)).len()
    &&& forall|i: int, j: int| 0 <= i < j < l.len() ==> lex_le(l[i], l[j])
    &&& forall|x: Seq<char>| l.contains(x) <==> (names.contains(x) && is_snapshot_file(x))
}

/// Why a prune was refused.
#[derive(Debug, Clone, Copy, PartialEq, Eq, Structural)]
pub enum PruneError {
    /// Fewer than one snapshot would be kept.
    KeepTooSmall,
}

impl PruneError {
    /// The error's text.
    pub fn message(&self) -> (m: String)
        ensures
            m@ == "--keep must be at least 1"@,
    {
        String::from_str("--keep must be at least 1")
    }
}

proof fn lemma_select_contains(names: Seq<Seq<char>>, keep: spec_fn(int) -> bool, x: Seq<char>)
    ensures
        select(names, keep).contains(x) <==> exists|i: int| 0 <= i < names.len() && names[i] == x && keep(i),
    decreases names.len(),
{
    if names.len() > 0 {
        lemma_select_contains(names.drop_last(), keep, x);
        let s = select(names.drop_last(), keep);
        if keep(names.len() - 1) {
            crate::text::lemma_push_contains(s, names.last(), x);
        }
        if exists|i: int| 0 <= i < names.len() && names[i] == x && keep(i) {
            let i = choose|i: int| 0 <= i < names.len() && names[i] == x && keep(i);
            if i < names.len() - 1 {
                assert(names.drop_last()[i] == x);
            }
        }
        if exists|i: int| 0 <= i < names.len() - 1 && names.drop_last()[i] == x && keep(i) {
            let i = choose|i: int| 0 <= i < names.len() - 1 && names.drop_last()[i] == x && keep(i);
            assert(names[i] == x);
        }
    }
}

/// The store of snapshots: one JSON file per scan in a directory.
pub struct SnapshotStore;

impl SnapshotStore {
    /// Compares the latest snapshot with the previous one: for each project
    /// of `latest`, in order, the fields that changed (health score, dirty
    /// state, lines of code, unpushed commits, branch, type) or that it is
    /// new; then each project of `previous` that `latest` no longer has.
    /// A project is matched by its path, to the first record with that path.
    pub fn diff(latest: &ScanSnapshot, previous: &ScanSnapshot) -> (diffs: Vec<SnapshotDiff>)
        ensures
            diff_entries(diffs@) == snapshot_changes(latest.projects@, previous.projects@),
    {
        let mut diffs: Vec<SnapshotDiff> = Vec::new();
        let lp = &latest.projects;
        let pp = &previous.projects;
        let mut i: usize = 0;
        while i < lp.len()
            invariant
                i <= lp.len(),
                diff_entries(diffs@) == latest_changes(lp@.subrange(0, i as int), pp@),
            decreases lp.len() - i,
        {
            let proj = &lp[i];
            match position_by_path(pp, &proj.path) {
                Some(k) => {
                    push_field_changes(&mut diffs, &pp[k], proj);
                },
                None => {
                    push_change(&mut diffs, &proj.path, DiffField::Project, String::new(), owned("new"));
                },
            }
            assert(lp@.subrange(0, i + 1).drop_last() =~= lp@.subrange(0, i as int));
            i = i + 1;
        }
        assert(lp@.subrange(0, lp.len() as int) =~= lp@);
        let ghost after_latest = diff_entries(diffs@);
        let mut j: usize = 0;
        while j < pp.len()
            invariant
                j <= pp.len(),
                after_latest == latest_changes(lp@, pp@),
                diff_entries(diffs@) == after_latest + removed_projects(lp@, pp@.subrange(0, j as int)),
            decreases pp.len() - j,
        {
            let prev = &pp[j];
            let ghost before = diff_entries(diffs@);
            if position_by_path(lp, &prev.path).is_none() {
                push_change(&mut diffs, &prev.path, DiffField::Project, owned("removed"), String::new());
            }
            assert(pp@.subrange(0, j + 1).drop_last() =~= pp@.subrange(0, j as int));
            assert(diff_entries(diffs@) =~= after_latest + removed_projects(lp@, pp@.subrange(0, j + 1)));
            j = j + 1;
        }
        assert(pp@.subrange(0, pp.len() as int) =~= pp@);
        diffs
    }

    /// The directory that holds the snapshots, below the home directory
    /// (the current directory without one).
    pub fn snapshots_dir(home: Option<&str>) -> (r: String)
        ensures
            r@ == path_join(projector_dir_of(match home { Some(h) => Some(h@), None => None }), "snapshots"@),
    {
        snapshot_dir(home)
    }

    /// The file name of the snapshot of a scan at `timestamp`: its date and
    /// time as `%Y%m%d_%H%M%S`, then `.json`. `None` for a date chrono
    /// cannot represent.
    pub fn file_name(timestamp: i64) -> (r: Option<String>)
        ensures
            r is Some <==> chrono_timestamp_valid(timestamp),
            r matches Some(n) ==> n@ == chrono_stamp(timestamp) + ".json"@,
    {
        match stamp_text(timestamp) {
            Some(t) => Some(t.concat(".json")),
            None => None,
        }
    }

    /// The snapshot files among the directory's file names, oldest first.
    pub fn snapshot_files(names: &Vec<String>) -> (r: Vec<String>)
        ensures
            snapshot_listing(texts(r@), texts(names@)),
            distinct_texts(texts(names@)) ==> distinct_texts(texts(r@)),
    {
        let suffix = chars_of(".json");
        let ghost keep = snapshot_at(texts(names@));
        let mut files: Vec<String> = Vec::new();
        let mut i: usize = 0;
        while i < names.len()
            invariant
                i <= names.len(),
                suffix@ == ".json"@,
                keep == snapshot_at(texts(names@)),
                texts(files@) == select(texts(names@).subrange(0, i as int), keep),
                forall|k: int| 0 <= k < files.len() ==> exists|j: int| 0 <= j < i && (#[trigger] files@[k])@ == #[trigger] names@[j]@,
                distinct_texts(texts(names@)) ==> distinct_texts(texts(files@)),
            decreases names.len() - i,
        {
            let ghost pre1 = texts(names@).subrange(0, i + 1);
            assert(pre1.drop_last() =~= texts(names@).subrange(0, i as int));
            assert(pre1.last() == names@[i as int]@);
            let cs = chars_of(names[i].as_str());
            proof {
                reveal_strlit(".json");
            }
            if cs.len() > 5 && ends_with_chars(&cs, &suffix) {
                let ghost before = texts(files@);
                files.push(names[i].clone());
                proof {
                    assert(texts(files@) =~= before.push(names@[i as int]@));
                    if distinct_texts(texts(names@)) {
                        assert forall|a: int, b: int| 0 <= a < b < texts(files@).len() implies texts(files@)[a]
                            != texts(files@)[b] by {
                            if b == files.len() - 1 {
                                let j = choose|j: int| 0 <= j < i && files@[a]@ == #[trigger] names@[j]@;
                                assert(texts(names@)[j] != texts(names@)[i as int]);
                            }
                        }
                    }
                }
            }
            i = i + 1;
        }
        assert(texts(names@).subrange(0, names.len() as int) =~= texts(names@));
        let r = sort_texts(&files);
        proof {
            assert forall|a: int, b: int| 0 <= a < b < texts(r@).len() implies lex_le(texts(r@)[a], texts(r@)[b]) by {
                assert(lex_le(r@[a]@, r@[b]@));
            }
            assert(texts(files@) == select(texts(names@), keep));
            assert(texts(r@).len() == select(texts(names@), snapshot_at(texts(names@))).len());
            assert forall|x: Seq<char>| #[trigger] texts(r@).contains(x) implies (texts(names@).contains(x) && is_snapshot_file(x)) by {
                lemma_select_contains(texts(names@), keep, x);
            }
            assert forall|x: Seq<char>| texts(names@).contains(x) && is_snapshot_file(x) implies #[trigger] texts(r@).contains(x) by {
                lemma_select_contains(texts(names@), keep, x);
                let i = choose|i: int| 0 <= i < texts(names@).len() && texts(names@)[i] == x;
                assert(keep(i));
            }
        }
        r
    }

    /// Which snapshot files a prune removes, keeping the `keep` newest: the
    /// oldest ones beyond that number, oldest first; none when `keep` is
    /// at least their number. Keeping fewer than one is refused.
    pub fn prune_plan(names: &Vec<String>, keep: u32) -> (r: Result<Vec<String>, PruneError>)
        ensures
            keep < 1 <==> r is Err,
            r matches Ok(v) ==> exists|l: Seq<Seq<char>>|
                snapshot_listing(l, texts(names@)) && texts(v@) == if keep as int >= l.len() {
                    Seq::<Seq<char>>::empty()
                } else {
                    l.take(l.len() - keep as int)
                },
    {
        if keep < 1 {
            return Err(PruneError::KeepTooSmall);
        }
        let files = Self::snapshot_files(names);
        let mut out: Vec<String> = Vec::new();
        if (keep as usize) < files.len() {
            let n = files.len() - keep as usize;
            let mut i: usize = 0;
            while i < n
                invariant
                    n <= files.len(),
                    i <= n,
                    texts(out@) == texts(files@).take(i as int),
                decreases n - i,
            {
                let ghost before = texts(out@);
                assert(texts(files@)[i as int] == files@[i as int]@);
                out.push(files[i].clone());
                assert(texts(out@) =~= before.push(files@[i as int]@));
                assert(texts(out@) =~= texts(files@).take(i + 1));
                i = i + 1;
            }
        } else {
            assert(texts(out@) =~= Seq::<Seq<char>>::empty());
        }
        assert(snapshot_listing(texts(files@), texts(names@)));
        Ok(out)
    }

    /// Which snapshot file holds the scan `skip` places before the newest
    /// (0 for the newest), if there are that many.
    pub fn pick(names: &Vec<String>, skip: usize) -> (r: Option<String>)
        ensures
            exists|l: Seq<Seq<char>>|
                snapshot_listing(l, texts(names@)) && match r {
                    Some(n) => skip < l.len() && n@ == l[l.len() - 1 - skip],
                    None => l.len() <= skip,
                },
    {
        let files = Self::snapshot_files(names);
        assert(snapshot_listing(texts(files@), texts(names@)));
        if files.len() <= skip {
            None
        } else {
            let idx = files.len() - 1 - skip;
            assert(texts(files@)[idx as int] == files@[idx as int]@);
            Some(files[idx].clone())
        }
    }
}

} // verus!
