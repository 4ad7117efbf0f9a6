//! What `search` finds: the projects of the latest scan whose name, path,
//! type or tags contain the query, ignoring case, optionally only those
//! with a given tag.
use vstd::prelude::*;

use crate::ordering::positions;
use crate::snapshot::ProjectSnapshot;
use crate::tags::{strictly_ascending, tagged, TagsIndex};
use crate::text::{
    blank, contains_sub, contains_text, display_name, is_blank, last_segment, str_contains, str_lowercase,
    texts, to_lowercase,
};

verus! {

/// Why a search was refused.
#[derive(Debug, Clone, Copy, PartialEq, Eq, Structural)]
pub enum SearchError {
    /// The query is empty or white space only.
    EmptyQuery,
}

impl SearchError {
    /// The error's text.
    pub fn message(&self) -> (m: String)
        ensures
            m@ == "Search query cannot be empty"@,
    {
        String::from_str("Search query cannot be empty")
    }
}

/// A project is found by the lower-case query `q`: it carries the tag
/// asked for, if any, and `q` occurs in its lower-cased name (the last part
/// of its path), path, type, or one of its tags.
pub open spec fn found(p: ProjectSnapshot, m: Map<Seq<char>, Seq<Seq<char>>>, q: Seq<char>, tag: Option<Seq<char>>) -> bool {
    &&& (tag matches Some(t) ==> tagged(m, p.path@, t))
    &&& {
        ||| contains_sub(str_lowercase(last_segment(p.path@)), q)
        ||| contains_sub(str_lowercase(p.path@), q)
        ||| contains_sub(str_lowercase(p.project_type@), q)
        ||| exists|t: Seq<char>| tagged(m, p.path@, t) && contains_sub(str_lowercase(t), q)
    }
}

/// The projects found, as positions.
pub open spec fn found_at(
    ps: Seq<ProjectSnapshot>,
    m: Map<Seq<char>, Seq<Seq<char>>>,
    q: Seq<char>,
    tag: Option<Seq<char>>,
) -> spec_fn(int) -> bool {
    |i: int| found(ps[i], m, q, tag)
}

/// One project found, with its tags.
#[derive(Debug)]
pub struct SearchHit {
    /// Position of the project in the scan.
    pub index: usize,
    /// Its tags, in ascending order.
    pub tags: Vec<String>,
}

/// Some text of `v`, lower-cased, contains `q`.
fn some_lowered_contains(v: &Vec<String>, q: &str) -> (r: bool)
    ensures
        r == exists|i: int| 0 <= i < v.len() && contains_sub(str_lowercase(#[trigger] v@[i]@), q@),
{
    let mut i: usize = 0;
    while i < v.len()
        invariant
            i <= v.len(),
            forall|j: int| 0 <= j < i ==> !contains_sub(str_lowercase(#[trigger] v@[j]@), q@),
        decreases v.len() - i,
    {
        let low = to_lowercase(v[i].as_str());
        if str_contains(low.as_str(), q) {
            return true;
        }
        i = i + 1;
    }
    false
}

/// Searches the projects of a scan. A blank query is refused.
pub fn search_projects(
    projects: &Vec<ProjectSnapshot>,
    tags: &TagsIndex,
    query: &str,
    tag: Option<&str>,
) -> (r: Result<Vec<SearchHit>, SearchError>)
    requires
        tags.wf(),
    ensures
        is_blank(query@) <==> r is Err,
        r matches Ok(hits) ==> {
            &&& hits@.map_values(|h: SearchHit| h.index) == positions(
                projects.len() as nat,
                found_at(projects@, tags@, str_lowercase(query@), match tag { Some(t) => Some(t@), None => None }),
            )
            &&& forall|k: int| 0 <= k < hits.len() ==> hits@[k].index < projects.len()
            &&& forall|k: int| 0 <= k < hits.len() ==> strictly_ascending(texts(#[trigger] hits@[k].tags@))
            &&& forall|k: int, t: Seq<char>|
                0 <= k < hits.len() ==> (#[trigger] texts(hits@[k].tags@).contains(t) <==> tagged(
                    tags@,
                    projects@[hits@[k].index as int].path@,
                    t,
                ))
        },
{
    if blank(query) {
        return Err(SearchError::EmptyQuery);
    }
    let q = to_lowercase(query);
    let ghost want = match tag { Some(t) => Some(t@), None => None };
    let ghost keep = found_at(projects@, tags@, str_lowercase(query@), want);
    let mut hits: Vec<SearchHit> = Vec::new();
    let mut i: usize = 0;
    while i < projects.len()
        invariant
            i <= projects.len(),
            tags.wf(),
            q@ == str_lowercase(query@),
            want == match tag { Some(t) => Some(t@), None => None },
            keep == found_at(projects@, tags@, str_lowercase(query@), want),
            hits@.map_values(|h: SearchHit| h.index) == positions(i as nat, keep),
            forall|k: int| 0 <= k < hits.len() ==> hits@[k].index < i,
            forall|k: int| 0 <= k < hits.len() ==> strictly_ascending(texts(#[trigger] hits@[k].tags@)),
            forall|k: int, t: Seq<char>|
                0 <= k < hits.len() ==> (#[trigger] texts(hits@[k].tags@).contains(t) <==> tagged(
                    tags@,
                    projects@[hits@[k].index as int].path@,
                    t,
                )),
        decreases projects.len() - i,
    {
        let p = &projects[i];
        let project_tags = tags.tags_for_path(p.path.as_str());
        let carries = match tag {
            Some(t) => contains_text(&project_tags, t),
            None => true,
        };
        let mut hit = false;
        if carries {
            let name = display_name(p.path.as_str());
            let by_name = str_contains(to_lowercase(name.as_str()).as_str(), q.as_str());
            let by_path = str_contains(to_lowercase(p.path.as_str()).as_str(), q.as_str());
            let by_type = str_contains(to_lowercase(p.project_type.as_str()).as_str(), q.as_str());
            let by_tag = some_lowered_contains(&project_tags, q.as_str());
            proof {
                if by_tag {
                    let j = choose|j: int|
                        0 <= j < project_tags.len() && contains_sub(str_lowercase(#[trigger] project_tags@[j]@), q@);
                    assert(texts(project_tags@)[j] == project_tags@[j]@);
                    assert(texts(project_tags@).contains(project_tags@[j]@));
                }
                if exists|t: Seq<char>| tagged(tags@, p.path@, t) && contains_sub(str_lowercase(t), q@) {
                    let t = choose|t: Seq<char>| tagged(tags@, p.path@, t) && contains_sub(str_lowercase(t), q@);
                    assert(texts(project_tags@).contains(t));
                    let j = choose|j: int| 0 <= j < texts(project_tags@).len() && texts(project_tags@)[j] == t;
                    assert(project_tags@[j]@ == t);
                }
            }
            hit = by_name || by_path || by_type || by_tag;
        }
        proof {
            assert(hit == keep(i as int));
        }
        let ghost old_hits = hits@;
        if hit {
            hits.push(SearchHit { index: i, tags: project_tags });
            assert(hits@.map_values(|h: SearchHit| h.index) =~= old_hits.map_values(|h: SearchHit| h.index).push(i));
        }
        assert(positions((i + 1) as nat, keep) == if keep(i as int) {
            positions(i as nat, keep).push(i)
        } else {
            positions(i as nat, keep)
        });
        i = i + 1;
    }
    Ok(hits)
}

} // verus!
