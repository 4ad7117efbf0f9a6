//! The tag index: which project paths carry which tag.
//!
//! The index is a list of `(tag, paths)` entries with distinct tags; its
//! value is the map from each tag to its list of paths. The order of the
//! entries never matters to any operation.
use vstd::prelude::*;

use crate::ordering::sort_texts;
use crate::text::{
    clone_strings, contains_text, dedup_runs, dedup_strings, distinct_texts, lemma_dedup_runs_contains,
    lemma_push_contains, lemma_without_contains, lex_le, lex_lt, owned, remove_text, texts, without,
    lemma_lex_total, blank, chars_of, is_blank,
};

verus! {

/// The map that a list of entries stands for.
pub open spec fn index_map(es: Seq<(String, Vec<String>)>) -> Map<Seq<char>, Seq<Seq<char>>>
    decreases es.len(),
{
    if es.len() == 0 {
        Map::empty()
    } else {
        index_map(es.drop_last()).insert(es.last().0@, texts(es.last().1@))
    }
}

/// No tag has two entries.
pub open spec fn keys_distinct(es: Seq<(String, Vec<String>)>) -> bool {
    forall|i: int, j: int| 0 <= i < j < es.len() ==> es[i].0@ != es[j].0@
}

/// `path` carries `tag` in the index `m`.
pub open spec fn tagged(m: Map<Seq<char>, Seq<Seq<char>>>, path: Seq<char>, tag: Seq<char>) -> bool {
    m.contains_key(tag) && m[tag].contains(path)
}

/// The index after `add_tag(path, tag)`: `path` appended to the tag's list
/// (created when missing), then runs of equal neighbours reduced.
pub open spec fn added(m: Map<Seq<char>, Seq<Seq<char>>>, path: Seq<char>, tag: Seq<char>) -> Map<
    Seq<char>,
    Seq<Seq<char>>,
> {
    let old_list = if m.contains_key(tag) {
        m[tag]
    } else {
        Seq::empty()
    };
    m.insert(tag, dedup_runs(old_list.push(path)))
}

/// The index after `remove_tag(path, tag)`: `path` dropped from the tag's
/// list, and the tag dropped when its list becomes empty.
pub open spec fn removed(m: Map<Seq<char>, Seq<Seq<char>>>, path: Seq<char>, tag: Seq<char>) -> Map<
    Seq<char>,
    Seq<Seq<char>>,
> {
    if m.contains_key(tag) {
        if without(m[tag], path).len() == 0 {
            m.remove(tag)
        } else {
            m.insert(tag, without(m[tag], path))
        }
    } else {
        m
    }
}

/// The index after `clear_path(path)`: `path` dropped from every list, and
/// every tag whose list is then empty dropped.
pub open spec fn cleared(m: Map<Seq<char>, Seq<Seq<char>>>, path: Seq<char>) -> Map<
    Seq<char>,
    Seq<Seq<char>>,
> {
    Map::new(
        |k: Seq<char>| m.contains_key(k) && without(m[k], path).len() > 0,
        |k: Seq<char>| without(m[k], path),
    )
}

/// Every element is below the next one: strictly ascending.
pub open spec fn strictly_ascending(v: Seq<Seq<char>>) -> bool {
    forall|i: int, j: int| 0 <= i < j < v.len() ==> lex_lt(v[i], v[j])
}

/// Project tags.
#[derive(Debug)]
pub struct TagsIndex {
    pub tags: Vec<(String, Vec<String>)>,
}

impl View for TagsIndex {
    type V = Map<Seq<char>, Seq<Seq<char>>>;

    open spec fn view(&self) -> Map<Seq<char>, Seq<Seq<char>>> {
        index_map(self.tags@)
    }
}

/// What the entries of a well-formed list say about the map.
pub proof fn lemma_index_map(es: Seq<(String, Vec<String>)>)
    requires
        keys_distinct(es),
    ensures
        forall|i: int|
            0 <= i < es.len() ==> #[trigger] index_map(es).contains_key(es[i].0@) && index_map(es)[es[i].0@]
                == texts(es[i].1@),
        forall|k: Seq<char>|
            #[trigger] index_map(es).contains_key(k) ==> exists|i: int| 0 <= i < es.len() && es[i].0@ == k,
    decreases es.len(),
{
    if es.len() > 0 {
        let init = es.drop_last();
        assert(keys_distinct(init));
        lemma_index_map(init);
        assert forall|i: int| 0 <= i < es.len() implies #[trigger] index_map(es).contains_key(es[i].0@)
            && index_map(es)[es[i].0@] == texts(es[i].1@) by {
            if i < es.len() - 1 {
                assert(init[i] == es[i]);
                assert(es[i].0@ != es.last().0@);
                assert(index_map(init).contains_key(init[i].0@));
            }
        }
        assert forall|k: Seq<char>| #[trigger] index_map(es).contains_key(k) implies exists|i: int|
            0 <= i < es.len() && es[i].0@ == k by {
            if k != es.last().0@ {
                assert(index_map(init).contains_key(k));
                let i = choose|i: int| 0 <= i < init.len() && init[i].0@ == k;
                assert(es[i].0@ == k);
            } else {
                assert(es[es.len() - 1].0@ == k);
            }
        }
    }
}

proof fn lemma_index_map_update(es: Seq<(String, Vec<String>)>, i: int, e: (String, Vec<String>))
    requires
        keys_distinct(es),
        0 <= i < es.len(),
        e.0@ == es[i].0@,
    ensures
        keys_distinct(es.update(i, e)),
        index_map(es.update(i, e)) == index_map(es).insert(e.0@, texts(e.1@)),
{
    let es2 = es.update(i, e);
    assert(keys_distinct(es2)) by {
        assert forall|a: int, b: int| 0 <= a < b < es2.len() implies es2[a].0@ != es2[b].0@ by {
            assert(es2[a].0@ == es[a].0@);
            assert(es2[b].0@ == es[b].0@);
        }
    }
    lemma_index_map(es);
    lemma_index_map(es2);
    let lhs = index_map(es2);
    let rhs = index_map(es).insert(e.0@, texts(e.1@));
    assert forall|k: Seq<char>| lhs.contains_key(k) <==> rhs.contains_key(k) by {
        if lhs.contains_key(k) {
            let j = choose|j: int| 0 <= j < es2.len() && es2[j].0@ == k;
            assert(index_map(es).contains_key(es[j].0@));
        }
        if rhs.contains_key(k) && k != e.0@ {
            let j = choose|j: int| 0 <= j < es.len() && es[j].0@ == k;
            assert(lhs.contains_key(es2[j].0@));
        }
        if k == e.0@ {
            assert(lhs.contains_key(es2[i].0@));
        }
    }
    assert forall|k: Seq<char>| lhs.contains_key(k) implies lhs[k] == rhs[k] by {
        let j = choose|j: int| 0 <= j < es2.len() && es2[j].0@ == k;
        assert(lhs[es2[j].0@] == texts(es2[j].1@));
        if j != i {
            assert(index_map(es)[es[j].0@] == texts(es[j].1@));
        }
    }
    assert(lhs =~= rhs);
}

proof fn lemma_index_map_remove(es: Seq<(String, Vec<String>)>, i: int)
    requires
        keys_distinct(es),
        0 <= i < es.len(),
    ensures
        keys_distinct(es.remove(i)),
        index_map(es.remove(i)) == index_map(es).remove(es[i].0@),
{
    let es2 = es.remove(i);
    assert(keys_distinct(es2)) by {
        assert forall|a: int, b: int| 0 <= a < b < es2.len() implies es2[a].0@ != es2[b].0@ by {
            let a0 = if a < i { a } else { a + 1 };
            let b0 = if b < i { b } else { b + 1 };
            assert(es2[a] == es[a0]);
            assert(es2[b] == es[b0]);
        }
    }
    lemma_index_map(es);
    lemma_index_map(es2);
    let lhs = index_map(es2);
    let rhs = index_map(es).remove(es[i].0@);
    assert forall|k: Seq<char>| lhs.contains_key(k) <==> rhs.contains_key(k) by {
        if lhs.contains_key(k) {
            let j = choose|j: int| 0 <= j < es2.len() && es2[j].0@ == k;
            let j0 = if j < i { j } else { j + 1 };
            assert(es2[j] == es[j0]);
            assert(index_map(es).contains_key(es[j0].0@));
        }
        if rhs.contains_key(k) {
            let j = choose|j: int| 0 <= j < es.len() && es[j].0@ == k;
            assert(j != i);
            let j2 = if j < i { j } else { j - 1 };
            assert(es2[j2] == es[j]);
            assert(lhs.contains_key(es2[j2].0@));
        }
    }
    assert forall|k: Seq<char>| lhs.contains_key(k) implies lhs[k] == rhs[k] by {
        let j = choose|j: int| 0 <= j < es2.len() && es2[j].0@ == k;
        let j0 = if j < i { j } else { j + 1 };
        assert(es2[j] == es[j0]);
        assert(lhs[es2[j].0@] == texts(es2[j].1@));
        assert(index_map(es)[es[j0].0@] == texts(es[j0].1@));
    }
    assert(lhs =~= rhs);
}

impl TagsIndex {
    /// The entries have distinct tags.
    pub open spec fn wf(&self) -> bool {
        keys_distinct(self.tags@)
    }

    /// An index with no tags.
    pub fn new() -> (r: Self)
        ensures
            r.wf(),
            r@ == Map::<Seq<char>, Seq<Seq<char>>>::empty(),
    {
        TagsIndex { tags: Vec::new() }
    }

    /// Position of the entry of `tag`.
    fn find_tag(&self, tag: &str) -> (r: Option<usize>)
        requires
            self.wf(),
        ensures
            r matches Some(i) ==> i < self.tags.len() && self.tags@[i as int].0@ == tag@,
            r is None ==> !self@.contains_key(tag@),
    {
        let t = owned(tag);
        let mut i: usize = 0;
        while i < self.tags.len()
            invariant
                i <= self.tags.len(),
                t@ == tag@,
                forall|j: int| 0 <= j < i ==> self.tags@[j].0@ != tag@,
            decreases self.tags.len() - i,
        {
            if self.tags[i].0 == t {
                return Some(i);
            }
            i = i + 1;
        }
        proof {
            lemma_index_map(self.tags@);
            if self@.contains_key(tag@) {
                let j = choose|j: int| 0 <= j < self.tags@.len() && self.tags@[j].0@ == tag@;
            }
        }
        None
    }

    /// Whether `path` carries `tag`.
    pub fn has_tag(&self, path: &str, tag: &str) -> (r: bool)
        requires
            self.wf(),
        ensures
            r == tagged(self@, path@, tag@),
    {
        match self.find_tag(tag) {
            Some(i) => {
                proof {
                    lemma_index_map(self.tags@);
                }
                contains_text(&self.tags[i].1, path)
            },
            None => false,
        }
    }

    /// The paths that carry `tag`, in their stored order.
    pub fn paths_for_tag(&self, tag: &str) -> (r: Vec<String>)
        requires
            self.wf(),
        ensures
            texts(r@) == if self@.contains_key(tag@) {
                self@[tag@]
            } else {
                Seq::empty()
            },
    {
        match self.find_tag(tag) {
            Some(i) => {
                proof {
                    lemma_index_map(self.tags@);
                }
                clone_strings(&self.tags[i].1)
            },
            None => {
                let r: Vec<String> = Vec::new();
                assert(texts(r@) =~= Seq::<Seq<char>>::empty());
                r
            },
        }
    }

    /// The tags that `path` carries, in ascending order.
    pub fn tags_for_path(&self, path: &str) -> (r: Vec<String>)
        requires
            self.wf(),
        ensures
            strictly_ascending(texts(r@)),
            forall|t: Seq<char>| texts(r@).contains(t) <==> tagged(self@, path@, t),
    {
        proof {
            lemma_index_map(self.tags@);
        }
        let mut found: Vec<String> = Vec::new();
        let mut i: usize = 0;
        while i < self.tags.len()
            invariant
                i <= self.tags.len(),
                self.wf(),
                forall|j: int| 0 <= j < found.len() ==> exists|e: int| 0 <= e < i && #[trigger] found@[j]@ == self.tags@[e].0@,
                distinct_texts(texts(found@)),
                forall|e: int| 0 <= e < i ==> (texts(found@).contains(self.tags@[e].0@) <==> texts(self.tags@[e].1@).contains(path@)),
            decreases self.tags.len() - i,
        {
            let ghost before = found@;
            if contains_text(&self.tags[i].1, path) {
                found.push(self.tags[i].0.clone());
                proof {
                    assert(texts(found@) =~= texts(before).push(self.tags@[i as int].0@));
                    assert forall|a: int, b: int| 0 <= a < b < texts(found@).len() implies texts(found@)[a] != texts(found@)[b] by {
                        if b == texts(found@).len() - 1 {
                            let e = choose|e: int| 0 <= e < i && #[trigger] found@[a]@ == self.tags@[e].0@;
                        }
                    }
                    assert forall|e: int| 0 <= e <= i implies (texts(found@).contains(self.tags@[e].0@) <==> texts(self.tags@[e].1@).contains(path@)) by {
                        lemma_push_contains(texts(before), self.tags@[i as int].0@, self.tags@[e].0@);
                    }
                    assert(found@[found.len() - 1]@ == self.tags@[i as int].0@);
                }
            } else {
                proof {
                    assert forall|e: int| 0 <= e <= i implies (texts(found@).contains(self.tags@[e].0@) <==> texts(self.tags@[e].1@).contains(path@)) by {
                        if e == i && texts(found@).contains(self.tags@[e].0@) {
                            let j = choose|j: int| 0 <= j < texts(found@).len() && texts(found@)[j] == self.tags@[e].0@;
                            let e2 = choose|e2: int| 0 <= e2 < i && #[trigger] found@[j]@ == self.tags@[e2].0@;
                        }
                    }
                }
            }
            i = i + 1;
        }
        let r = sort_texts(&found);
        proof {
            assert forall|t: Seq<char>| texts(r@).contains(t) <==> tagged(self@, path@, t) by {
                if texts(found@).contains(t) {
                    let j = choose|j: int| 0 <= j < texts(found@).len() && texts(found@)[j] == t;
                    let e = choose|e: int| 0 <= e < self.tags.len() && #[trigger] found@[j]@ == self.tags@[e].0@;
                }
                if tagged(self@, path@, t) {
                    let e = choose|e: int| 0 <= e < self.tags@.len() && self.tags@[e].0@ == t;
                }
            }
            assert forall|a: int, b: int| 0 <= a < b < texts(r@).len() implies lex_lt(texts(r@)[a], texts(r@)[b]) by {
                assert(lex_le(r@[a]@, r@[b]@));
            }
        }
        r
    }

    /// All tags, in ascending order.
    pub fn all_tags(&self) -> (r: Vec<String>)
        requires
            self.wf(),
        ensures
            strictly_ascending(texts(r@)),
            forall|t: Seq<char>| texts(r@).contains(t) <==> self@.contains_key(t),
    {
        proof {
            lemma_index_map(self.tags@);
        }
        let mut names: Vec<String> = Vec::new();
        let mut i: usize = 0;
        while i < self.tags.len()
            invariant
                i <= self.tags.len(),
                names.len() == i,
                forall|j: int| 0 <= j < i ==> #[trigger] names@[j]@ == self.tags@[j].0@,
            decreases self.tags.len() - i,
        {
            names.push(self.tags[i].0.clone());
            i = i + 1;
        }
        let r = sort_texts(&names);
        proof {
            assert forall|t: Seq<char>| texts(r@).contains(t) <==> self@.contains_key(t) by {
                if texts(names@).contains(t) {
                    let j = choose|j: int| 0 <= j < texts(names@).len() && texts(names@)[j] == t;
                    assert(names@[j]@ == self.tags@[j].0@);
                }
                if self@.contains_key(t) {
                    let e = choose|e: int| 0 <= e < self.tags@.len() && self.tags@[e].0@ == t;
                    assert(texts(names@)[e] == t);
                }
            }
            assert forall|a: int, b: int| 0 <= a < b < texts(r@).len() implies lex_lt(texts(r@)[a], texts(r@)[b]) by {
                assert(lex_le(r@[a]@, r@[b]@));
            }
            assert(distinct_texts(texts(names@))) by {
                assert forall|a: int, b: int| 0 <= a < b < texts(names@).len() implies texts(names@)[a] != texts(names@)[b] by {
                    assert(names@[a]@ == self.tags@[a].0@);
                    assert(names@[b]@ == self.tags@[b].0@);
                }
            }
        }
        r
    }

    /// Tags `path` with `tag`: appends `path` to the tag's list (creating the
    /// tag when missing), then reduces runs of equal neighbours in the list.
    pub fn add_tag(&mut self, path: &str, tag: &str)
        requires
            old(self).wf(),
        ensures
            final(self).wf(),
            final(self)@ == added(old(self)@, path@, tag@),
    {
        proof {
            lemma_index_map(self.tags@);
        }
        match self.find_tag(tag) {
            Some(i) => {
                let mut list = clone_strings(&self.tags[i].1);
                list.push(owned(path));
                let d = dedup_strings(&list);
                let key = self.tags[i].0.clone();
                proof {
                    assert(texts(list@) =~= texts(self.tags@[i as int].1@).push(path@));
                    lemma_index_map_update(self.tags@, i as int, (key, d));
                }
                self.tags[i] = (key, d);
            },
            None => {
                let mut list: Vec<String> = Vec::new();
                list.push(owned(path));
                let d = dedup_strings(&list);
                proof {
                    assert(texts(list@) =~= Seq::<Seq<char>>::empty().push(path@));
                }
                let ghost before = self.tags@;
                self.tags.push((owned(tag), d));
                proof {
                    assert(self.tags@.drop_last() =~= before);
                    assert forall|a: int, b: int| 0 <= a < b < self.tags@.len() implies self.tags@[a].0@ != self.tags@[b].0@ by {
                        if b == self.tags@.len() - 1 {
                            assert(index_map(before).contains_key(before[a].0@));
                        }
                    }
                }
            },
        }
    }

    /// Removes `tag` from `path`; the tag goes away when no path is left.
    pub fn remove_tag(&mut self, path: &str, tag: &str)
        requires
            old(self).wf(),
        ensures
            final(self).wf(),
            final(self)@ == removed(old(self)@, path@, tag@),
    {
        proof {
            lemma_index_map(self.tags@);
        }
        match self.find_tag(tag) {
            Some(i) => {
                let l = remove_text(&self.tags[i].1, path);
                if l.len() == 0 {
                    proof {
                        lemma_index_map_remove(self.tags@, i as int);
                    }
                    self.tags.remove(i);
                } else {
                    let key = self.tags[i].0.clone();
                    proof {
                        lemma_index_map_update(self.tags@, i as int, (key, l));
                    }
                    self.tags[i] = (key, l);
                }
            },
            None => {},
        }
    }

    /// Removes `path` from every tag; tags left without paths go away.
    pub fn clear_path(&mut self, path: &str)
        requires
            old(self).wf(),
        ensures
            final(self).wf(),
            final(self)@ == cleared(old(self)@, path@),
    {
        let ghost es = self.tags@;
        let mut kept: Vec<(String, Vec<String>)> = Vec::new();
        let mut i: usize = 0;
        while i < self.tags.len()
            invariant
                i <= self.tags.len(),
                es == self.tags@,
                keys_distinct(es),
                keys_distinct(kept@),
                forall|j: int| 0 <= j < kept.len() ==> exists|e: int| 0 <= e < i && #[trigger] kept@[j].0@ == es[e].0@,
                index_map(kept@) == cleared(index_map(es.subrange(0, i as int)), path@),
            decreases self.tags.len() - i,
        {
            let l = remove_text(&self.tags[i].1, path);
            let ghost prefix = es.subrange(0, i as int);
            let ghost k = es[i as int].0@;
            proof {
                assert(es.subrange(0, i + 1).drop_last() =~= prefix);
                assert(keys_distinct(prefix));
                lemma_index_map(prefix);
                assert(!index_map(prefix).contains_key(k)) by {
                    if index_map(prefix).contains_key(k) {
                        let e = choose|e: int| 0 <= e < prefix.len() && prefix[e].0@ == k;
                        assert(es[e].0@ == k);
                    }
                }
            }
            let ghost before = kept@;
            if l.len() > 0 {
                kept.push((self.tags[i].0.clone(), l));
                proof {
                    assert(kept@.drop_last() =~= before);
                    assert forall|a: int, b: int| 0 <= a < b < kept@.len() implies kept@[a].0@ != kept@[b].0@ by {
                        if b == kept@.len() - 1 {
                            let e = choose|e: int| 0 <= e < i && #[trigger] before[a].0@ == es[e].0@;
                        }
                    }
                    assert(kept@[kept@.len() - 1].0@ == es[i as int].0@);
                }
            }
            proof {
                let m = index_map(prefix);
                let m2 = index_map(es.subrange(0, i + 1));
                assert(m2 == m.insert(k, texts(es[i as int].1@)));
                let lhs = index_map(kept@);
                let rhs = cleared(m2, path@);
                assert(lhs =~= rhs);
            }
            i = i + 1;
        }
        proof {
            assert(es.subrange(0, es.len() as int) =~= es);
        }
        self.tags = kept;
    }
}

/// Tagging a path makes it carry the tag.
pub proof fn lemma_add_then_tagged(m: Map<Seq<char>, Seq<Seq<char>>>, path: Seq<char>, tag: Seq<char>)
    ensures
        tagged(added(m, path, tag), path, tag),
{
    let old_list = if m.contains_key(tag) {
        m[tag]
    } else {
        Seq::empty()
    };
    lemma_push_contains(old_list, path, path);
    lemma_dedup_runs_contains(old_list.push(path), path);
}

/// Tagging a path changes nothing for other tags, nor for other paths of
/// the same tag.
pub proof fn lemma_add_keeps_others(
    m: Map<Seq<char>, Seq<Seq<char>>>,
    path: Seq<char>,
    tag: Seq<char>,
    other_path: Seq<char>,
    other_tag: Seq<char>,
)
    requires
        other_tag != tag || other_path != path,
    ensures
        tagged(added(m, path, tag), other_path, other_tag) == tagged(m, other_path, other_tag),
{
    if other_tag == tag {
        let old_list = if m.contains_key(tag) {
            m[tag]
        } else {
            Seq::empty()
        };
        lemma_push_contains(old_list, path, other_path);
        lemma_dedup_runs_contains(old_list.push(path), other_path);
    }
}

/// Removing a tag from a path leaves the path without it, and changes
/// nothing for other tags or other paths.
pub proof fn lemma_remove_then_untagged(
    m: Map<Seq<char>, Seq<Seq<char>>>,
    path: Seq<char>,
    tag: Seq<char>,
    other_path: Seq<char>,
    other_tag: Seq<char>,
)
    ensures
        !tagged(removed(m, path, tag), path, tag),
        (other_tag != tag || other_path != path) ==> tagged(removed(m, path, tag), other_path, other_tag)
            == tagged(m, other_path, other_tag),
{
    if m.contains_key(tag) {
        lemma_without_contains(m[tag], path, path);
        lemma_without_contains(m[tag], path, other_path);
        if without(m[tag], path).len() == 0 && other_tag == tag && m[tag].contains(other_path) && other_path != path {
            assert(without(m[tag], path).contains(other_path));
        }
    }
}

/// Clearing a path leaves it without tags, and every other path keeps
/// exactly its tags.
pub proof fn lemma_clear_then_untagged(
    m: Map<Seq<char>, Seq<Seq<char>>>,
    path: Seq<char>,
    tag: Seq<char>,
    other_path: Seq<char>,
)
    requires
        other_path != path,
    ensures
        !tagged(cleared(m, path), path, tag),
        tagged(cleared(m, path), other_path, tag) == tagged(m, other_path, tag),
{
    if m.contains_key(tag) {
        lemma_without_contains(m[tag], path, path);
        lemma_without_contains(m[tag], path, other_path);
        if m[tag].contains(other_path) {
            assert(without(m[tag], path).contains(other_path));
        }
    }
}


/// A tag name can be used: it is not blank and holds no space.
pub open spec fn usable_tag(tag: Seq<char>) -> bool {
    !is_blank(tag) && !tag.contains(' ')
}

/// Whether a tag name can be used (`tag set` refuses the others with
/// "Tag name must not be empty or contain spaces").
pub fn is_usable_tag(tag: &str) -> (r: bool)
    ensures
        r == usable_tag(tag@),
{
    if blank(tag) {
        return false;
    }
    let cs = chars_of(tag);
    let mut i: usize = 0;
    while i < cs.len()
        invariant
            i <= cs.len(),
            cs@ == tag@,
            forall|j: int| 0 <= j < i ==> cs@[j] != ' ',
        decreases cs.len() - i,
    {
        if cs[i] == ' ' {
            return false;
        }
        i = i + 1;
    }
    true
}

} // verus!
