//! What `list` decides: which project directories it shows (those with
//! the tag asked for), and how their type, age and tags are written.
use vstd::prelude::*;

use crate::analyzer::{project_type_name, ProjectType};
use crate::color::{green, info, red, wrap, yellow};
use crate::subcmd::report::select;
use crate::subcmd::scan::{join_texts, joined};
use crate::tags::{tagged, TagsIndex};
use crate::text::{clone_strings, texts};
use crate::time::{days_between, days_since};

verus! {

/// The projects a listing shows: all, or with a tag those that carry it.
pub open spec fn listed(paths: Seq<String>, m: Map<Seq<char>, Seq<Seq<char>>>, tag: Option<Seq<char>>) -> Seq<String> {
    match tag {
        Some(t) => select(paths, |i: int| tagged(m, paths[i]@, t)),
        None => paths,
    }
}

/// The project directories a listing shows, in order.
pub fn listed_projects(paths: &Vec<String>, tags: &TagsIndex, tag: Option<&str>) -> (r: Vec<String>)
    requires
        tags.wf(),
    ensures
        r@ == listed(paths@, tags@, match tag { Some(t) => Some(t@), None => None }),
{
    match tag {
        None => clone_strings(paths),
        Some(t) => {
            let ghost keep = |i: int| tagged(tags@, paths@[i]@, t@);
            let mut r: Vec<String> = Vec::new();
            let mut i: usize = 0;
            while i < paths.len()
                invariant
                    i <= paths.len(),
                    tags.wf(),
                    keep == (|i: int| tagged(tags@, paths@[i]@, t@)),
                    r@ == select(paths@.subrange(0, i as int), keep),
                decreases paths.len() - i,
            {
                let ghost pre1 = paths@.subrange(0, i + 1);
                assert(pre1.drop_last() =~= paths@.subrange(0, i as int));
                let ghost before = select(paths@.subrange(0, i as int), keep);
                if tags.has_tag(paths[i].as_str(), t) {
                    let ghost old_r = r@;
                    r.push(paths[i].clone());
                    assert(select(pre1, keep) == before.push(paths@[i as int]));
                } else {
                    assert(select(pre1, keep) == before);
                }
                i = i + 1;
            }
            assert(paths@.subrange(0, paths.len() as int) =~= paths@);
            r
        },
    }
}

/// How a project's type is written: `Unknown project` in red, else
/// `<type> project` in green.
pub open spec fn type_label_text(t: ProjectType) -> Seq<char> {
    if t == ProjectType::Unknown {
        wrap("\x1b[31m"@, "Unknown project"@)
    } else {
        wrap("\x1b[32m"@, project_type_name(t) + " project"@)
    }
}

/// How a project's type is written in the listing.
pub fn type_label(t: &ProjectType) -> (r: String)
    ensures
        r@ == type_label_text(*t),
{
    match t {
        ProjectType::Unknown => red("Unknown project"),
        _ => {
            let s = String::from_str(t.as_str());
            let s = s.concat(" project");
            green(s.as_str())
        },
    }
}

/// The directory was last modified more than 30 whole days before `now`.
pub open spec fn long_untouched(modified: int, now: int) -> bool {
    days_between(now, modified) > 30
}

/// How the time of the last change is shown: red when it is more than 30
/// days old, green otherwise.
pub fn modified_label(shown: &str, modified: i64, now: i64) -> (r: String)
    ensures
        r@ == if long_untouched(modified as int, now as int) {
            wrap("\x1b[31m"@, shown@)
        } else {
            wrap("\x1b[32m"@, shown@)
        },
{
    if days_since(now, modified) > 30 {
        red(shown)
    } else {
        green(shown)
    }
}

/// How a project's tags follow it: nothing without tags, else ` [`, the
/// tags joined by `, `, `]`, in yellow.
pub open spec fn tag_suffix_text(tags: Seq<Seq<char>>) -> Seq<char> {
    if tags.len() == 0 {
        Seq::empty()
    } else {
        wrap("\x1b[33m"@, " ["@ + joined(tags) + "]"@)
    }
}

/// How a project's tags follow it in the listing.
pub fn tag_suffix(tags: &Vec<String>) -> (r: String)
    ensures
        r@ == tag_suffix_text(texts(tags@)),
{
    if tags.len() == 0 {
        String::new()
    } else {
        let s = String::from_str(" [");
        let s = s.concat(join_texts(tags).as_str());
        let s = s.concat("]");
        yellow(s.as_str())
    }
}

/// The line that opens a listing.
pub fn listing_header(tag: Option<&str>) -> (r: String)
    ensures
        r@ == match tag {
            Some(t) => wrap("\x1b[32m"@, "Info: "@) + "listing directories with tag '"@ + t@ + "'..."@,
            None => wrap("\x1b[32m"@, "Info: "@) + "listing directories..."@,
        },
{
    match tag {
        Some(t) => {
            let s = String::from_str("listing directories with tag '");
            let s = s.concat(t);
            let s = s.concat("'...");
            info(s.as_str())
        },
        None => info("listing directories..."),
    }
}

} // verus!
