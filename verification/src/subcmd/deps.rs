//! What `deps` computes from the dependencies found in projects: the
//! dependencies shared by several of them, the per-project summary, the
//! counts of projects and distinct names, and the `--project` filter.
use vstd::prelude::*;

use crate::analyzer::{count_where, first_occurrences, lemma_first_occurrences};
use crate::color::{blue, cyan, green, white, wrap, yellow};
use crate::ordering::{key_values, sort_texts, stable_order, stable_order_of, KeyValue, SortKey};
use crate::subcmd::report::{reordered, select};
use crate::tags::strictly_ascending;
use crate::text::{
    chars_of, clone_strings, contains_sub, contains_text, file_name, file_name_of, file_name_or_path,
    lemma_push_contains, lex_le, lex_lt, str_contains, str_eq, string_of, texts,
};

verus! {

/// One dependency declared by one project.
#[derive(Debug)]
pub struct DependencyEntry {
    pub name: String,
    pub version_req: String,
    pub project_path: String,
    /// The ecosystem: `rust`, `js`, `go` or `python`.
    pub dep_type: String,
    pub is_dev: bool,
}

/// A dependency used by two or more projects.
#[derive(Debug)]
pub struct SharedDep {
    pub name: String,
    /// Version and type of its first entry.
    pub version: String,
    pub dep_type: String,
    /// The names of the projects that use it, ascending, each once.
    pub projects: Vec<String>,
}

/// A shared dependency as text: name, version, type, projects.
pub open spec fn shared_view(s: SharedDep) -> (Seq<char>, Seq<char>, Seq<char>, Seq<Seq<char>>) {
    (s.name@, s.version@, s.dep_type@, texts(s.projects@))
}

/// The names of the entries, in order.
pub open spec fn dep_names(ds: Seq<DependencyEntry>) -> Seq<Seq<char>> {
    ds.map_values(|d: DependencyEntry| d.name@)
}

/// The project paths of the entries, in order.
pub open spec fn dep_paths(ds: Seq<DependencyEntry>) -> Seq<Seq<char>> {
    ds.map_values(|d: DependencyEntry| d.project_path@)
}

/// The name a project is listed by: the last component of its path, or
/// the whole path when it has none.
pub open spec fn project_label(path: Seq<char>) -> Seq<char> {
    match file_name_of(path) {
        Some(n) => n,
        None => path,
    }
}
/// Some entry of dependency `n` comes from the project listed as `t`.
pub open spec fn used_by(ds: Seq<DependencyEntry>, n: Seq<char>, t: Seq<char>) -> bool {
    exists|i: int| 0 <= i < ds.len() && #[trigger] ds[i].name@ == n && project_label(ds[i].project_path@) == t
}

/// `v` describes dependency `n` of the entries: its version and type are
/// those of its first entry, and its projects are the projects using it,
/// ascending, each once.
pub open spec fn describes(
    ds: Seq<DependencyEntry>,
    n: Seq<char>,
    v: (Seq<char>, Seq<char>, Seq<char>, Seq<Seq<char>>),
) -> bool {
    &&& v.0 == n
    &&& exists|k: int|
        0 <= k < ds.len() && ds[k].name@ == n && (forall|j: int| 0 <= j < k ==> (#[trigger] ds[j]).name@ != n)
            && v.1 == ds[k].version_req@ && v.2 == ds[k].dep_type@
    &&& strictly_ascending(v.3)
    &&& forall|t: Seq<char>| v.3.contains(t) <==> used_by(ds, n, t)
}

/// Some entry of dependency `n` comes from the project at path `p`.
pub open spec fn used_in(ds: Seq<DependencyEntry>, n: Seq<char>, p: Seq<char>) -> bool {
    exists|i: int| 0 <= i < ds.len() && #[trigger] ds[i].name@ == n && ds[i].project_path@ == p
}

/// Dependency `n` is used by two or more projects: entries of it come from
/// two different project paths.
pub open spec fn two_users(ds: Seq<DependencyEntry>, n: Seq<char>) -> bool {
    exists|a: Seq<char>, b: Seq<char>|
        #![trigger used_in(ds, n, a), used_in(ds, n, b)]
        a != b && used_in(ds, n, a) && used_in(ds, n, b)
}

/// The dependency names used by two or more projects, in order of first
/// appearance.
pub open spec fn shared_names(ds: Seq<DependencyEntry>) -> Seq<Seq<char>> {
    let names = first_occurrences(dep_names(ds));
    select(names, |j: int| two_users(ds, names[j]))
}

/// The distinct project paths that use dependency `n`.
fn project_paths_of(ds: &Vec<DependencyEntry>, n: &str) -> (r: Vec<String>)
    ensures
        crate::text::distinct_texts(texts(r@)),
        forall|p: Seq<char>| texts(r@).contains(p) <==> used_in(ds@, n@, p),
{
    let mut paths: Vec<String> = Vec::new();
    let mut i: usize = 0;
    while i < ds.len()
        invariant
            i <= ds.len(),
            crate::text::distinct_texts(texts(paths@)),
            forall|p: Seq<char>|
                texts(paths@).contains(p) <==> exists|j: int|
                    0 <= j < i && #[trigger] ds@[j].name@ == n@ && ds@[j].project_path@ == p,
        decreases ds.len() - i,
    {
        let d = &ds[i];
        if str_eq(d.name.as_str(), n) {
            if !contains_text(&paths, d.project_path.as_str()) {
                let ghost before = texts(paths@);
                paths.push(d.project_path.clone());
                proof {
                    assert(texts(paths@) =~= before.push(ds@[i as int].project_path@));
                    assert forall|a: int, b: int| 0 <= a < b < texts(paths@).len() implies texts(paths@)[a]
                        != texts(paths@)[b] by {
                        if b == texts(paths@).len() - 1 {
                            assert(before.contains(texts(paths@)[a]));
                        }
                    }
                    assert forall|p: Seq<char>| texts(paths@).contains(p) <==> exists|j: int|
                        0 <= j < i + 1 && #[trigger] ds@[j].name@ == n@ && ds@[j].project_path@ == p by {
                        lemma_push_contains(before, ds@[i as int].project_path@, p);
                    }
                }
            } else {
                proof {
                    assert forall|p: Seq<char>| texts(paths@).contains(p) <==> exists|j: int|
                        0 <= j < i + 1 && #[trigger] ds@[j].name@ == n@ && ds@[j].project_path@ == p by {
                        if p == ds@[i as int].project_path@ {
                            assert(texts(paths@).contains(p));
                        }
                    }
                }
            }
        }
        i = i + 1;
    }
    proof {
        assert forall|p: Seq<char>| texts(paths@).contains(p) <==> used_in(ds@, n@, p) by {
            if used_in(ds@, n@, p) {
                let j = choose|j: int| 0 <= j < ds@.len() && #[trigger] ds@[j].name@ == n@ && ds@[j].project_path@ == p;
            }
        }
    }
    paths
}

/// Two or more distinct paths use the dependency exactly when two projects
/// use it.
proof fn lemma_two_users(ds: Seq<DependencyEntry>, n: Seq<char>, paths: Seq<Seq<char>>)
    requires
        crate::text::distinct_texts(paths),
        forall|p: Seq<char>| paths.contains(p) <==> used_in(ds, n, p),
    ensures
        (paths.len() >= 2) == two_users(ds, n),
{
    if paths.len() >= 2 {
        assert(paths[0] != paths[1]);
        assert(paths.contains(paths[0]) && paths.contains(paths[1]));
        assert(used_in(ds, n, paths[0]) && used_in(ds, n, paths[1]));
    }
    if two_users(ds, n) {
        let (a, b) = choose|a: Seq<char>, b: Seq<char>|
            #![trigger used_in(ds, n, a), used_in(ds, n, b)]
            a != b && used_in(ds, n, a) && used_in(ds, n, b);
        assert(paths.contains(a) && paths.contains(b));
        let ia = choose|i: int| 0 <= i < paths.len() && paths[i] == a;
        let ib = choose|i: int| 0 <= i < paths.len() && paths[i] == b;
        assert(ia != ib);
    }
}

/// The keys the shared dependencies are ordered by: their numbers of
/// projects.
pub open spec fn project_counts(c: Seq<(Seq<char>, Seq<char>, Seq<char>, Seq<Seq<char>>)>) -> Seq<KeyValue> {
    c.map_values(|v: (Seq<char>, Seq<char>, Seq<char>, Seq<Seq<char>>)| KeyValue::Num(v.3.len() as int))
}

/// The name a project path is listed by.
fn label_of(path: &str) -> (r: String)
    ensures
        r@ == project_label(path@),
{
    file_name_or_path(path)
}

/// Everything known of dependency `n` from the entries: version and type
/// of its first entry, and its projects.
fn describe(ds: &Vec<DependencyEntry>, n: &str) -> (r: SharedDep)
    requires
        dep_names(ds@).contains(n@),
    ensures
        describes(ds@, n@, shared_view(r)),
{
    let mut first: Option<usize> = None;
    let mut labels: Vec<String> = Vec::new();
    let mut i: usize = 0;
    while i < ds.len()
        invariant
            i <= ds.len(),
            first matches Some(k) ==> k < i && ds@[k as int].name@ == n@ && forall|j: int|
                0 <= j < k ==> (#[trigger] ds@[j]).name@ != n@,
            first is None ==> forall|j: int| 0 <= j < i ==> (#[trigger] ds@[j]).name@ != n@,
            crate::text::distinct_texts(texts(labels@)),
            forall|t: Seq<char>|
                texts(labels@).contains(t) <==> exists|j: int|
                    0 <= j < i && #[trigger] ds@[j].name@ == n@ && project_label(ds@[j].project_path@) == t,
        decreases ds.len() - i,
    {
        let ghost pre1 = ds@.subrange(0, i + 1);
        assert(pre1.drop_last() =~= ds@.subrange(0, i as int));
        assert(pre1.last() == ds@[i as int]);
        let d = &ds[i];
        if str_eq(d.name.as_str(), n) {
            if first.is_none() {
                first = Some(i);
            }
            let label = label_of(d.project_path.as_str());
            if !contains_text(&labels, label.as_str()) {
                let ghost before = texts(labels@);
                labels.push(label);
                proof {
                    assert(texts(labels@) =~= before.push(project_label(ds@[i as int].project_path@)));
                    assert forall|a: int, b: int| 0 <= a < b < texts(labels@).len() implies texts(labels@)[a]
                        != texts(labels@)[b] by {
                        if b == texts(labels@).len() - 1 {
                            assert(before.contains(texts(labels@)[a]));
                        }
                    }
                    assert forall|t: Seq<char>| texts(labels@).contains(t) <==> exists|j: int|
                        0 <= j < i + 1 && #[trigger] ds@[j].name@ == n@ && project_label(ds@[j].project_path@) == t by {
                        lemma_push_contains(before, project_label(ds@[i as int].project_path@), t);
                    }
                }
            } else {
                proof {
                    assert forall|t: Seq<char>| texts(labels@).contains(t) <==> exists|j: int|
                        0 <= j < i + 1 && #[trigger] ds@[j].name@ == n@ && project_label(ds@[j].project_path@) == t by {
                        if t == project_label(ds@[i as int].project_path@) {
                            assert(texts(labels@).contains(t));
                        }
                    }
                }
            }
        }
        i = i + 1;
    }
    assert(ds@.subrange(0, ds.len() as int) =~= ds@);
    proof {
        let j = choose|j: int| 0 <= j < dep_names(ds@).len() && dep_names(ds@)[j] == n@;
        assert(ds@[j].name@ == n@);
    }
    let k = match first {
        Some(k) => k,
        None => 0,
    };
    let projects = sort_texts(&labels);
    proof {
        assert forall|a: int, b: int| 0 <= a < b < texts(projects@).len() implies lex_lt(
            texts(projects@)[a],
            texts(projects@)[b],
        ) by {
            assert(lex_le(projects@[a]@, projects@[b]@));
            assert(texts(projects@)[a] == projects@[a]@);
            assert(texts(projects@)[b] == projects@[b]@);
            assert(crate::text::distinct_texts(texts(projects@)));
        }
        assert forall|t: Seq<char>| texts(projects@).contains(t) <==> used_by(ds@, n@, t) by {
            if used_by(ds@, n@, t) {
                let j = choose|j: int|
                    0 <= j < ds@.len() && #[trigger] ds@[j].name@ == n@ && project_label(ds@[j].project_path@) == t;
            }
        }
    }
    let s = SharedDep {
        name: String::from_str(n),
        version: ds[k].version_req.clone(),
        dep_type: ds[k].dep_type.clone(),
        projects,
    };
    assert(ds@[k as int].name@ == n@);
    s
}

/// The dependencies used by two or more projects (two or more different
/// project paths): name, version and type of the first entry, and the
/// projects using it (by the last component of their path, ascending, each
/// once). They are ordered by their number of
/// projects, most first; ties keep the order in which the names first
/// appear.
pub fn find_shared(ds: &Vec<DependencyEntry>) -> (r: Vec<SharedDep>)
    ensures
        exists|c: Seq<(Seq<char>, Seq<char>, Seq<char>, Seq<Seq<char>>)>|
            #![trigger project_counts(c)]
            {
                &&& c.len() == shared_names(ds@).len()
                &&& forall|j: int| 0 <= j < c.len() ==> describes(ds@, shared_names(ds@)[j], #[trigger] c[j])
                &&& exists|perm: Seq<usize>|
                    stable_order(project_counts(c), true, perm) && r@.map_values(|s: SharedDep| shared_view(s))
                        == reordered(c, perm)
            },
{
    let ghost all_names = dep_names(ds@);
    let ghost names_seq = first_occurrences(all_names);
    // The names in order of first appearance.
    let mut names: Vec<String> = Vec::new();
    let mut i: usize = 0;
    while i < ds.len()
        invariant
            i <= ds.len(),
            all_names == dep_names(ds@),
            texts(names@) == first_occurrences(dep_names(ds@.subrange(0, i as int))),
        decreases ds.len() - i,
    {
        let ghost pre = ds@.subrange(0, i as int);
        let ghost pre1 = ds@.subrange(0, i + 1);
        assert(dep_names(pre1).drop_last() =~= dep_names(pre));
        assert(dep_names(pre1).last() == ds@[i as int].name@);
        if !contains_text(&names, ds[i].name.as_str()) {
            let ghost before = texts(names@);
            names.push(ds[i].name.clone());
            assert(texts(names@) =~= before.push(ds@[i as int].name@));
        }
        i = i + 1;
    }
    assert(ds@.subrange(0, ds.len() as int) =~= ds@);
    proof {
        lemma_first_occurrences(all_names);
    }
    // One candidate per name used by two or more projects.
    let ghost keep = |j: int| two_users(ds@, names_seq[j]);
    let mut cands: Vec<SharedDep> = Vec::new();
    let ghost mut c: Seq<(Seq<char>, Seq<char>, Seq<char>, Seq<Seq<char>>)> = Seq::empty();
    let mut j: usize = 0;
    while j < names.len()
        invariant
            j <= names.len(),
            all_names == dep_names(ds@),
            names_seq == first_occurrences(all_names),
            texts(names@) == names_seq,
            forall|x: Seq<char>| names_seq.contains(x) <==> all_names.contains(x),
            keep == (|j: int| two_users(ds@, names_seq[j])),
            c == cands@.map_values(|s: SharedDep| shared_view(s)),
            c.len() == select(names_seq.subrange(0, j as int), keep).len(),
            forall|k: int|
                0 <= k < c.len() ==> describes(ds@, select(names_seq.subrange(0, j as int), keep)[k], #[trigger] c[k]),
        decreases names.len() - j,
    {
        let ghost sub1 = names_seq.subrange(0, j + 1);
        assert(sub1.drop_last() =~= names_seq.subrange(0, j as int));
        assert(names_seq[j as int] == names@[j as int]@);
        assert(all_names.contains(names@[j as int]@)) by {
            assert(names_seq.contains(names@[j as int]@));
        }
        let users = project_paths_of(ds, names[j].as_str());
        proof {
            lemma_two_users(ds@, names_seq[j as int], texts(users@));
        }
        if users.len() >= 2 {
            let s = describe(ds, names[j].as_str());
            let ghost before = select(names_seq.subrange(0, j as int), keep);
            cands.push(s);
            proof {
                assert(select(sub1, keep) == before.push(names_seq[j as int]));
                c = c.push(shared_view(s));
                assert(c =~= cands@.map_values(|s: SharedDep| shared_view(s)));
            }
        } else {
            assert(select(sub1, keep) == select(names_seq.subrange(0, j as int), keep));
        }
        j = j + 1;
    }
    assert(names_seq.subrange(0, names.len() as int) =~= names_seq);
    assert(select(names_seq, keep) == shared_names(ds@));
    // Most projects first, ties in order.
    let mut keys: Vec<SortKey> = Vec::new();
    let mut k: usize = 0;
    while k < cands.len()
        invariant
            k <= cands.len(),
            keys.len() == k,
            forall|t: int|
                0 <= t < k ==> #[trigger] keys@[t].value() == KeyValue::Num(texts(cands@[t].projects@).len() as int),
        decreases cands.len() - k,
    {
        keys.push(SortKey::Num(cands[k].projects.len() as i128));
        k = k + 1;
    }
    assert(key_values(keys@) =~= project_counts(c));
    let perm = stable_order_of(&keys, true);
    let mut r: Vec<SharedDep> = Vec::new();
    let mut t: usize = 0;
    while t < perm.len()
        invariant
            t <= perm.len(),
            perm.len() == cands.len(),
            forall|x: int| 0 <= x < perm.len() ==> perm@[x] < cands.len(),
            c == cands@.map_values(|s: SharedDep| shared_view(s)),
            r.len() == t,
            r@.map_values(|s: SharedDep| shared_view(s)) == reordered(c, perm@.subrange(0, t as int)),
        decreases perm.len() - t,
    {
        let s = &cands[perm[t]];
        assert(c[perm@[t as int] as int] == shared_view(cands@[perm@[t as int] as int]));
        let ghost old_r = r@;
        r.push(SharedDep {
            name: s.name.clone(),
            version: s.version.clone(),
            dep_type: s.dep_type.clone(),
            projects: clone_strings(&s.projects),
        });
        assert(shared_view(r@[t as int]) == shared_view(*s));
        assert(r@.map_values(|s: SharedDep| shared_view(s)) =~= old_r.map_values(|s: SharedDep| shared_view(s)).push(
            shared_view(*s),
        ));
        assert(r@.map_values(|s: SharedDep| shared_view(s)) =~= reordered(c, perm@.subrange(0, t + 1)));
        t = t + 1;
    }
    assert(perm@.subrange(0, perm.len() as int) =~= perm@);
    assert(stable_order(project_counts(c), true, perm@));
    r
}

/// The number of distinct projects the entries come from.
pub fn count_projects(ds: &Vec<DependencyEntry>) -> (n: usize)
    ensures
        n == first_occurrences(dep_paths(ds@)).len(),
{
    let mut seen: Vec<String> = Vec::new();
    let mut i: usize = 0;
    while i < ds.len()
        invariant
            i <= ds.len(),
            texts(seen@) == first_occurrences(dep_paths(ds@.subrange(0, i as int))),
        decreases ds.len() - i,
    {
        let ghost pre1 = ds@.subrange(0, i + 1);
        assert(dep_paths(pre1).drop_last() =~= dep_paths(ds@.subrange(0, i as int)));
        assert(dep_paths(pre1).last() == ds@[i as int].project_path@);
        if !contains_text(&seen, ds[i].project_path.as_str()) {
            let ghost before = texts(seen@);
            seen.push(ds[i].project_path.clone());
            assert(texts(seen@) =~= before.push(ds@[i as int].project_path@));
        }
        i = i + 1;
    }
    assert(ds@.subrange(0, ds.len() as int) =~= ds@);
    seen.len()
}

/// The number of distinct dependency names among the entries.
pub fn count_unique(ds: &Vec<DependencyEntry>) -> (n: usize)
    ensures
        n == first_occurrences(dep_names(ds@)).len(),
{
    let mut seen: Vec<String> = Vec::new();
    let mut i: usize = 0;
    while i < ds.len()
        invariant
            i <= ds.len(),
            texts(seen@) == first_occurrences(dep_names(ds@.subrange(0, i as int))),
        decreases ds.len() - i,
    {
        let ghost pre1 = ds@.subrange(0, i + 1);
        assert(dep_names(pre1).drop_last() =~= dep_names(ds@.subrange(0, i as int)));
        assert(dep_names(pre1).last() == ds@[i as int].name@);
        if !contains_text(&seen, ds[i].name.as_str()) {
            let ghost before = texts(seen@);
            seen.push(ds[i].name.clone());
            assert(texts(seen@) =~= before.push(ds@[i as int].name@));
        }
        i = i + 1;
    }
    assert(ds@.subrange(0, ds.len() as int) =~= ds@);
    seen.len()
}

/// The entry's project is named by a last path component that contains
/// `proj` (a path without one never matches).
pub open spec fn of_project(d: DependencyEntry, proj: Seq<char>) -> bool {
    match file_name_of(d.project_path@) {
        Some(n) => contains_sub(n, proj),
        None => false,
    }
}

/// The entries of the projects whose name contains `proj`, in order.
pub fn deps_of_project(ds: &Vec<DependencyEntry>, proj: &str) -> (r: Vec<usize>)
    ensures
        r@ == crate::ordering::positions(ds.len() as nat, |i: int| of_project(ds@[i], proj@)),
{
    let ghost keep = |i: int| of_project(ds@[i], proj@);
    let needle = chars_of(proj);
    let mut r: Vec<usize> = Vec::new();
    let mut i: usize = 0;
    while i < ds.len()
        invariant
            i <= ds.len(),
            needle@ == proj@,
            keep == (|i: int| of_project(ds@[i], proj@)),
            r@ == crate::ordering::positions(i as nat, keep),
        decreases ds.len() - i,
    {
        let path = chars_of(ds[i].project_path.as_str());
        let hit = match file_name(&path) {
            Some(n) => crate::text::contains_chars(&n, &needle),
            None => false,
        };
        if hit {
            r.push(i);
        }
        assert(crate::ordering::positions((i + 1) as nat, keep) == if keep(i as int) {
            crate::ordering::positions(i as nat, keep).push(i)
        } else {
            crate::ordering::positions(i as nat, keep)
        });
        i = i + 1;
    }
    r
}

/// The colour of an ecosystem in the listings.
pub open spec fn ecosystem_paint(t: Seq<char>) -> Seq<char> {
    if t == "rust"@ {
        "\x1b[32m"@
    } else if t == "js"@ {
        "\x1b[33m"@
    } else if t == "go"@ {
        "\x1b[34m"@
    } else if t == "python"@ {
        "\x1b[36m"@
    } else {
        "\x1b[37m"@
    }
}

/// How an ecosystem is named in the per-project summary.
pub open spec fn ecosystem_name(t: Seq<char>) -> Seq<char> {
    if t == "rust"@ {
        "Rust"@
    } else if t == "js"@ {
        "JS"@
    } else if t == "go"@ {
        "Go"@
    } else if t == "python"@ {
        "Python"@
    } else {
        "Unknown"@
    }
}

/// An ecosystem's tag in its colour, as the shared list shows it.
pub fn ecosystem_colored(t: &str) -> (r: String)
    ensures
        r@ == wrap(ecosystem_paint(t@), t@),
{
    if str_eq(t, "rust") {
        green(t)
    } else if str_eq(t, "js") {
        yellow(t)
    } else if str_eq(t, "go") {
        blue(t)
    } else if str_eq(t, "python") {
        cyan(t)
    } else {
        white(t)
    }
}

/// An ecosystem's name in its colour, as the per-project summary shows it.
pub fn ecosystem_label(t: &str) -> (r: String)
    ensures
        r@ == wrap(ecosystem_paint(t@), ecosystem_name(t@)),
{
    if str_eq(t, "rust") {
        green("Rust")
    } else if str_eq(t, "js") {
        yellow("JS")
    } else if str_eq(t, "go") {
        blue("Go")
    } else if str_eq(t, "python") {
        cyan("Python")
    } else {
        white("Unknown")
    }
}

/// One project's line of the summary.
#[derive(Debug)]
pub struct ProjectDeps {
    pub path: String,
    /// All its entries.
    pub total: usize,
    /// Its development entries.
    pub dev: usize,
    /// The ecosystem of its first entry.
    pub dep_type: String,
}

/// The entry comes from project `p`.
pub open spec fn from_path(p: Seq<char>) -> spec_fn(DependencyEntry) -> bool {
    |d: DependencyEntry| d.project_path@ == p
}

/// The entry comes from project `p` and is a development dependency.
pub open spec fn dev_from_path(p: Seq<char>) -> spec_fn(DependencyEntry) -> bool {
    |d: DependencyEntry| d.project_path@ == p && d.is_dev
}

/// The summary of each project, in order of first appearance: its number
/// of entries, of development entries, and the ecosystem of its first
/// entry.
pub fn project_summaries(ds: &Vec<DependencyEntry>) -> (r: Vec<ProjectDeps>)
    ensures
        r@.map_values(|p: ProjectDeps| p.path@) == first_occurrences(dep_paths(ds@)),
        forall|k: int|
            0 <= k < r.len() ==> {
                &&& (#[trigger] r@[k]).total == count_where(ds@, from_path(r@[k].path@))
                &&& r@[k].dev == count_where(ds@, dev_from_path(r@[k].path@))
                &&& exists|f: int|
                    0 <= f < ds.len() && ds@[f].project_path@ == r@[k].path@ && (forall|j: int|
                        0 <= j < f ==> (#[trigger] ds@[j]).project_path@ != r@[k].path@) && r@[k].dep_type@
                        == ds@[f].dep_type@
            },
{
    let mut paths: Vec<String> = Vec::new();
    let mut i: usize = 0;
    while i < ds.len()
        invariant
            i <= ds.len(),
            texts(paths@) == first_occurrences(dep_paths(ds@.subrange(0, i as int))),
        decreases ds.len() - i,
    {
        let ghost pre1 = ds@.subrange(0, i + 1);
        assert(dep_paths(pre1).drop_last() =~= dep_paths(ds@.subrange(0, i as int)));
        assert(dep_paths(pre1).last() == ds@[i as int].project_path@);
        if !contains_text(&paths, ds[i].project_path.as_str()) {
            let ghost before = texts(paths@);
            paths.push(ds[i].project_path.clone());
            assert(texts(paths@) =~= before.push(ds@[i as int].project_path@));
        }
        i = i + 1;
    }
    assert(ds@.subrange(0, ds.len() as int) =~= ds@);
    proof {
        lemma_first_occurrences(dep_paths(ds@));
    }
    let mut r: Vec<ProjectDeps> = Vec::new();
    let mut k: usize = 0;
    while k < paths.len()
        invariant
            k <= paths.len(),
            texts(paths@) == first_occurrences(dep_paths(ds@)),
            forall|x: Seq<char>| first_occurrences(dep_paths(ds@)).contains(x) <==> dep_paths(ds@).contains(x),
            r.len() == k,
            forall|q: int| 0 <= q < k ==> (#[trigger] r@[q]).path@ == paths@[q]@,
            forall|q: int|
                0 <= q < k ==> {
                    &&& (#[trigger] r@[q]).total == count_where(ds@, from_path(r@[q].path@))
                    &&& r@[q].dev == count_where(ds@, dev_from_path(r@[q].path@))
                    &&& exists|f: int|
                        0 <= f < ds.len() && ds@[f].project_path@ == r@[q].path@ && (forall|j: int|
                            0 <= j < f ==> (#[trigger] ds@[j]).project_path@ != r@[q].path@) && r@[q].dep_type@
                            == ds@[f].dep_type@
                },
        decreases paths.len() - k,
    {
        let p = paths[k].as_str();
        assert(texts(paths@)[k as int] == paths@[k as int]@);
        assert(dep_paths(ds@).contains(p@));
        let mut total: usize = 0;
        let mut dev: usize = 0;
        let mut first: Option<usize> = None;
        let mut i: usize = 0;
        while i < ds.len()
            invariant
                i <= ds.len(),
                total == count_where(ds@.subrange(0, i as int), from_path(p@)),
                dev == count_where(ds@.subrange(0, i as int), dev_from_path(p@)),
                total <= i,
                dev <= i,
                first matches Some(f) ==> f < i && ds@[f as int].project_path@ == p@ && forall|j: int|
                    0 <= j < f ==> (#[trigger] ds@[j]).project_path@ != p@,
                first is None ==> forall|j: int| 0 <= j < i ==> (#[trigger] ds@[j]).project_path@ != p@,
            decreases ds.len() - i,
        {
            let ghost pre1 = ds@.subrange(0, i + 1);
            assert(pre1.drop_last() =~= ds@.subrange(0, i as int));
            assert(pre1.last() == ds@[i as int]);
            if str_eq(ds[i].project_path.as_str(), p) {
                total = total + 1;
                if ds[i].is_dev {
                    dev = dev + 1;
                }
                if first.is_none() {
                    first = Some(i);
                }
            }
            i = i + 1;
        }
        assert(ds@.subrange(0, ds.len() as int) =~= ds@);
        proof {
            let j = choose|j: int| 0 <= j < dep_paths(ds@).len() && dep_paths(ds@)[j] == p@;
            assert(ds@[j].project_path@ == p@);
        }
        let f = match first {
            Some(f) => f,
            None => 0,
        };
        r.push(ProjectDeps { path: paths[k].clone(), total, dev, dep_type: ds[f].dep_type.clone() });
        k = k + 1;
    }
    assert(r@.map_values(|p: ProjectDeps| p.path@) =~= texts(paths@));
    r
}

} // verus!
