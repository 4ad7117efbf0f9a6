//! Stable ordering of records by a key: the library's sorts all go through
//! `stable_order_of`, which returns the permutation that a stable sort
//! (`sort_by`, `sort_by_key`) applies.
use vstd::prelude::*;

use crate::text::{chars_eq, chars_of, distinct_texts, lex_le, lex_less, lex_lt, lemma_lex_irreflexive,
    lemma_lex_total, lemma_lex_transitive, texts};

verus! {

/// A sort key: a number, or a text compared lexicographically.
pub enum SortKey {
    Num(i128),
    Text(Vec<char>),
}

/// The mathematical value of a key.
pub enum KeyValue {
    Num(int),
    Text(Seq<char>),
}

impl SortKey {
    pub open spec fn value(&self) -> KeyValue {
        match self {
            SortKey::Num(x) => KeyValue::Num(*x as int),
            SortKey::Text(v) => KeyValue::Text(v@),
        }
    }
}

/// Strict order on key values; numbers come before texts (a sort never
/// mixes the two).
pub open spec fn value_lt(a: KeyValue, b: KeyValue) -> bool {
    match (a, b) {
        (KeyValue::Num(x), KeyValue::Num(y)) => x < y,
        (KeyValue::Text(x), KeyValue::Text(y)) => lex_lt(x, y),
        (KeyValue::Num(_), KeyValue::Text(_)) => true,
        (KeyValue::Text(_), KeyValue::Num(_)) => false,
    }
}

/// The values of some keys.
pub open spec fn key_values(keys: Seq<SortKey>) -> Seq<KeyValue> {
    keys.map_values(|k: SortKey| k.value())
}

/// Record `i` comes before record `j` in a stable sort by the key values
/// `keys`: its key is smaller (larger when `desc`), or the keys are equal and
/// `i` came first.
pub open spec fn comes_before(keys: Seq<KeyValue>, desc: bool, i: int, j: int) -> bool {
    let a = keys[i];
    let b = keys[j];
    if desc {
        value_lt(b, a) || (a == b && i < j)
    } else {
        value_lt(a, b) || (a == b && i < j)
    }
}

/// `perm` lists each of `0..n` exactly once.
pub open spec fn is_index_permutation(perm: Seq<usize>, n: nat) -> bool {
    &&& perm.len() == n
    &&& forall|i: int| 0 <= i < perm.len() ==> perm[i] < n
    &&& forall|i: int, j: int| 0 <= i < j < perm.len() ==> perm[i] != perm[j]
}

/// `perm` is the order in which a stable sort by `keys` (descending when
/// `desc`) puts the records.
pub open spec fn stable_order(keys: Seq<KeyValue>, desc: bool, perm: Seq<usize>) -> bool {
    &&& is_index_permutation(perm, keys.len())
    &&& forall|i: int, j: int|
        0 <= i < j < perm.len() ==> #[trigger] comes_before(keys, desc, perm[i] as int, perm[j] as int)
}

proof fn lemma_value_lt_facts(a: KeyValue, b: KeyValue, c: KeyValue)
    ensures
        !value_lt(a, a),
        a != b ==> value_lt(a, b) || value_lt(b, a),
        !(value_lt(a, b) && value_lt(b, a)),
        value_lt(a, b) && value_lt(b, c) ==> value_lt(a, c),
{
    match (a, b) {
        (KeyValue::Text(x), KeyValue::Text(y)) => {
            lemma_lex_irreflexive(x);
            lemma_lex_total(x, y);
        },
        (KeyValue::Num(x), KeyValue::Num(y)) => {},
        _ => {},
    }
    match a {
        KeyValue::Text(x) => lemma_lex_irreflexive(x),
        _ => {},
    }
    match (a, b, c) {
        (KeyValue::Text(x), KeyValue::Text(y), KeyValue::Text(z)) => {
            if lex_lt(x, y) && lex_lt(y, z) {
                lemma_lex_transitive(x, y, z);
            }
        },
        _ => {},
    }
}

/// `comes_before` is a strict total order on the indices of `keys`.
pub proof fn lemma_comes_before_order(keys: Seq<KeyValue>, desc: bool, i: int, j: int, k: int)
    requires
        0 <= i < keys.len(),
        0 <= j < keys.len(),
        0 <= k < keys.len(),
    ensures
        !comes_before(keys, desc, i, i),
        i != j ==> comes_before(keys, desc, i, j) || comes_before(keys, desc, j, i),
        !(comes_before(keys, desc, i, j) && comes_before(keys, desc, j, i)),
        comes_before(keys, desc, i, j) && comes_before(keys, desc, j, k) ==> comes_before(
            keys,
            desc,
            i,
            k,
        ),
{
    let a = keys[i];
    let b = keys[j];
    let c = keys[k];
    lemma_value_lt_facts(a, b, c);
    lemma_value_lt_facts(c, b, a);
    lemma_value_lt_facts(b, a, c);
    lemma_value_lt_facts(a, c, b);
    lemma_value_lt_facts(b, c, a);
    lemma_value_lt_facts(c, a, b);
}

/// Two orders that both satisfy `stable_order` for the same keys are equal:
/// a stable sort has exactly one outcome.
pub proof fn lemma_stable_order_unique(keys: Seq<KeyValue>, desc: bool, p: Seq<usize>, q: Seq<usize>)
    requires
        stable_order(keys, desc, p),
        stable_order(keys, desc, q),
        keys.len() <= usize::MAX,
    ensures
        p == q,
    decreases keys.len(),
{
    assert forall|m: int| 0 <= m < p.len() implies p[m] == q[m] by {
        lemma_stable_order_position(keys, desc, p, q, m);
    }
    assert(p =~= q);
}

/// Position `m` of two stable orders holds the same index: in both it is
/// the index with exactly `m` indices before it.
proof fn lemma_stable_order_position(
    keys: Seq<KeyValue>,
    desc: bool,
    p: Seq<usize>,
    q: Seq<usize>,
    m: int,
)
    requires
        stable_order(keys, desc, p),
        stable_order(keys, desc, q),
        0 <= m < p.len(),
        keys.len() <= usize::MAX,
    ensures
        p[m] == q[m],
{
    let n = keys.len();
    // The indices placed before position m in p are exactly those that come before p[m].
    let before_p = Set::new(|x: usize| x < n && comes_before(keys, desc, x as int, p[m] as int));
    let before_q = Set::new(|x: usize| x < n && comes_before(keys, desc, x as int, q[m] as int));
    lemma_rank(keys, desc, p, m);
    lemma_rank(keys, desc, q, m);
    if p[m] != q[m] {
        lemma_comes_before_order(keys, desc, p[m] as int, q[m] as int, p[m] as int);
        if comes_before(keys, desc, p[m] as int, q[m] as int) {
            // then before_p is a strict subset of before_q
            assert forall|x: usize| before_p.contains(x) implies before_q.contains(x) by {
                lemma_comes_before_order(keys, desc, x as int, p[m] as int, q[m] as int);
            }
            assert(before_q.contains(p[m]));
            lemma_comes_before_order(keys, desc, p[m] as int, p[m] as int, p[m] as int);
            assert(!before_p.contains(p[m]));
            vstd::set_lib::lemma_len_subset(before_p, before_q.remove(p[m]));
            assert(before_q.remove(p[m]).len() == before_q.len() - 1);
        } else {
            assert forall|x: usize| before_q.contains(x) implies before_p.contains(x) by {
                lemma_comes_before_order(keys, desc, x as int, q[m] as int, p[m] as int);
            }
            assert(before_p.contains(q[m]));
            lemma_comes_before_order(keys, desc, q[m] as int, q[m] as int, q[m] as int);
            assert(!before_q.contains(q[m]));
            vstd::set_lib::lemma_len_subset(before_q, before_p.remove(q[m]));
            assert(before_p.remove(q[m]).len() == before_p.len() - 1);
        }
    }
}

/// In a stable order, the indices before position `m` are exactly those that
/// come before `p[m]`; there are `m` of them.
proof fn lemma_rank(keys: Seq<KeyValue>, desc: bool, p: Seq<usize>, m: int)
    requires
        stable_order(keys, desc, p),
        0 <= m < p.len(),
        keys.len() <= usize::MAX,
    ensures
        Set::new(|x: usize| x < keys.len() && comes_before(keys, desc, x as int, p[m] as int))
            == p.subrange(0, m).to_set(),
        Set::new(|x: usize| x < keys.len() && comes_before(keys, desc, x as int, p[m] as int)).len()
            == m,
        Set::new(|x: usize| x < keys.len() && comes_before(keys, desc, x as int, p[m] as int)).finite(),
{
    let n = keys.len();
    let s = Set::new(|x: usize| x < n && comes_before(keys, desc, x as int, p[m] as int));
    let pre = p.subrange(0, m);
    assert forall|x: usize| s.contains(x) implies pre.to_set().contains(x) by {
        // x is somewhere in p
        lemma_permutation_covers(p, n, x);
        let t = choose|t: int| 0 <= t < p.len() && p[t] == x;
        if t >= m {
            if t == m {
                lemma_comes_before_order(keys, desc, x as int, x as int, x as int);
            } else {
                assert(comes_before(keys, desc, p[m] as int, p[t] as int));
                lemma_comes_before_order(keys, desc, x as int, p[m] as int, x as int);
            }
        }
        assert(pre[t] == x);
    }
    assert forall|x: usize| pre.to_set().contains(x) implies s.contains(x) by {
        let t = choose|t: int| 0 <= t < pre.len() && pre[t] == x;
        assert(p[t] == x);
        assert(comes_before(keys, desc, p[t] as int, p[m] as int));
    }
    assert(s =~= pre.to_set());
    assert forall|i: int, j: int| 0 <= i < j < pre.len() implies pre[i] != pre[j] by {}
    assert(pre.no_duplicates());
    pre.unique_seq_to_set();
}

/// Every index below `n` occurs in a permutation of `0..n`.
pub proof fn lemma_permutation_covers(p: Seq<usize>, n: nat, x: usize)
    requires
        is_index_permutation(p, n),
        x < n,
        n <= usize::MAX,
    ensures
        exists|t: int| 0 <= t < p.len() && p[t] == x,
{
    let s = p.to_set();
    assert forall|i: int, j: int| 0 <= i < j < p.len() implies p[i] != p[j] by {}
    assert(p.no_duplicates());
    p.unique_seq_to_set();
    let full = Set::new(|y: usize| y < n);
    assert(s.subset_of(full));
    lemma_range_set_len(n);
    if !s.contains(x) {
        vstd::set_lib::lemma_len_subset(s, full.remove(x));
        assert(full.remove(x).len() == full.len() - 1);
    }
}

/// The set of indices below `n` has `n` elements.
pub proof fn lemma_range_set_len(n: nat)
    requires
        n <= usize::MAX,
    ensures
        Set::new(|y: usize| y < n).finite(),
        Set::new(|y: usize| y < n).len() == n,
    decreases n,
{
    if n == 0 {
        assert(Set::new(|y: usize| y < n) =~= Set::<usize>::empty());
    } else {
        lemma_range_set_len((n - 1) as nat);
        let smaller = Set::new(|y: usize| y < (n - 1) as nat);
        let full = Set::new(|y: usize| y < n);
        assert(full =~= smaller.insert((n - 1) as usize)) by {
            assert forall|y: usize| #[trigger] full.contains(y) implies smaller.insert(
                (n - 1) as usize,
            ).contains(y) by {
                if y != (n - 1) as usize {
                    assert(y < n - 1);
                }
            }
        }
    }
}

/// The key values are equal.
fn same_key(a: &SortKey, b: &SortKey) -> (r: bool)
    ensures
        r == (a.value() == b.value()),
{
    match (a, b) {
        (SortKey::Num(x), SortKey::Num(y)) => *x == *y,
        (SortKey::Text(x), SortKey::Text(y)) => chars_eq(x, y),
        _ => false,
    }
}

/// The first key value is below the second.
fn key_below(a: &SortKey, b: &SortKey) -> (r: bool)
    ensures
        r == value_lt(a.value(), b.value()),
{
    match (a, b) {
        (SortKey::Num(x), SortKey::Num(y)) => *x < *y,
        (SortKey::Text(x), SortKey::Text(y)) => lex_less(x, y),
        (SortKey::Num(_), SortKey::Text(_)) => true,
        (SortKey::Text(_), SortKey::Num(_)) => false,
    }
}

/// Record `i` comes before record `j`.
fn precedes(keys: &Vec<SortKey>, desc: bool, i: usize, j: usize) -> (r: bool)
    requires
        i < keys.len(),
        j < keys.len(),
    ensures
        r == comes_before(key_values(keys@), desc, i as int, j as int),
{
    let a = &keys[i];
    let b = &keys[j];
    if desc {
        key_below(b, a) || (same_key(a, b) && i < j)
    } else {
        key_below(a, b) || (same_key(a, b) && i < j)
    }
}


/// The positions `0..n` where `keep` holds, in increasing order.
pub open spec fn positions(n: nat, keep: spec_fn(int) -> bool) -> Seq<usize>
    decreases n,
{
    if n == 0 {
        Seq::empty()
    } else if keep(n - 1) {
        positions((n - 1) as nat, keep).push((n - 1) as usize)
    } else {
        positions((n - 1) as nat, keep)
    }
}

/// The order in which a stable sort by `keys` puts the records: record
/// `perm[0]` first, then `perm[1]`, and so on.
pub fn stable_order_of(keys: &Vec<SortKey>, desc: bool) -> (perm: Vec<usize>)
    ensures
        stable_order(key_values(keys@), desc, perm@),
{
    let ghost vals = key_values(keys@);
    let n = keys.len();
    let mut perm: Vec<usize> = Vec::new();
    let mut i: usize = 0;
    while i < n
        invariant
            n == keys.len(),
            vals == key_values(keys@),
            i <= n,
            is_index_permutation(perm@, i as nat),
            forall|a: int, b: int|
                0 <= a < b < perm.len() ==> #[trigger] comes_before(vals, desc, perm@[a] as int, perm@[b] as int),
        decreases n - i,
    {
        let mut pos = perm.len();
        while pos > 0 && precedes(keys, desc, i, perm[pos - 1])
            invariant
                n == keys.len(),
                vals == key_values(keys@),
                i < n,
                pos <= perm.len(),
                is_index_permutation(perm@, i as nat),
                forall|t: int| pos <= t < perm.len() ==> comes_before(vals, desc, i as int, #[trigger] perm@[t] as int),
            decreases pos,
        {
            pos = pos - 1;
        }
        proof {
            if pos > 0 {
                lemma_comes_before_order(vals, desc, i as int, perm@[pos - 1] as int, i as int);
                assert(comes_before(vals, desc, perm@[pos - 1] as int, i as int));
                assert forall|t: int| 0 <= t < pos implies comes_before(vals, desc, #[trigger] perm@[t] as int, i as int) by {
                    if t < pos - 1 {
                        assert(comes_before(vals, desc, perm@[t] as int, perm@[pos - 1] as int));
                        lemma_comes_before_order(vals, desc, perm@[t] as int, perm@[pos - 1] as int, i as int);
                    }
                }
            }
        }
        let ghost old_perm = perm@;
        perm.insert(pos, i);
        proof {
            assert(perm@ =~= old_perm.subrange(0, pos as int).push(i).add(old_perm.subrange(pos as int, old_perm.len() as int)));
            assert forall|a: int, b: int| 0 <= a < b < perm.len() implies #[trigger] comes_before(vals, desc, perm@[a] as int, perm@[b] as int) by {
                if a < pos && b < pos {
                    assert(perm@[a] == old_perm[a] && perm@[b] == old_perm[b]);
                } else if a < pos && b == pos {
                } else if a < pos && b > pos {
                    assert(perm@[a] == old_perm[a] && perm@[b] == old_perm[b - 1]);
                } else if a == pos {
                    assert(perm@[b] == old_perm[b - 1]);
                } else {
                    assert(perm@[a] == old_perm[a - 1] && perm@[b] == old_perm[b - 1]);
                }
            }
            assert forall|a: int, b: int| 0 <= a < b < perm.len() implies perm@[a] != perm@[b] by {
                if a != pos && b != pos {
                } else {
                }
            }
        }
        i = i + 1;
    }
    perm
}


/// The same strings in ascending lexicographic order (`sort`).
pub fn sort_texts(v: &Vec<String>) -> (r: Vec<String>)
    ensures
        r.len() == v.len(),
        forall|i: int, j: int| 0 <= i < j < r.len() ==> lex_le(r@[i]@, r@[j]@),
        forall|x: Seq<char>| texts(r@).contains(x) <==> texts(v@).contains(x),
        distinct_texts(texts(v@)) ==> distinct_texts(texts(r@)),
{
    let mut keys: Vec<SortKey> = Vec::new();
    let mut i: usize = 0;
    while i < v.len()
        invariant
            i <= v.len(),
            keys.len() == i,
            forall|j: int| 0 <= j < i ==> #[trigger] keys@[j].value() == KeyValue::Text(v@[j]@),
        decreases v.len() - i,
    {
        keys.push(SortKey::Text(chars_of(v[i].as_str())));
        i = i + 1;
    }
    let perm = stable_order_of(&keys, false);
    let mut r: Vec<String> = Vec::new();
    let mut k: usize = 0;
    while k < perm.len()
        invariant
            k <= perm.len(),
            perm.len() == v.len(),
            is_index_permutation(perm@, v.len() as nat),
            r.len() == k,
            forall|j: int| 0 <= j < k ==> #[trigger] r@[j] == v@[perm@[j] as int],
        decreases perm.len() - k,
    {
        r.push(v[perm[k]].clone());
        k = k + 1;
    }
    proof {
        assert forall|a: int, b: int| 0 <= a < b < r.len() implies lex_le(r@[a]@, r@[b]@) by {
            assert(comes_before(key_values(keys@), false, perm@[a] as int, perm@[b] as int));
            assert(key_values(keys@)[perm@[a] as int] == keys@[perm@[a] as int].value());
            assert(key_values(keys@)[perm@[b] as int] == keys@[perm@[b] as int].value());
        }
        assert forall|x: Seq<char>| texts(r@).contains(x) <==> texts(v@).contains(x) by {
            if texts(r@).contains(x) {
                let a = choose|a: int| 0 <= a < texts(r@).len() && texts(r@)[a] == x;
                assert(texts(v@)[perm@[a] as int] == x);
            }
            if texts(v@).contains(x) {
                let b = choose|b: int| 0 <= b < texts(v@).len() && texts(v@)[b] == x;
                lemma_permutation_covers(perm@, v.len() as nat, b as usize);
                let t = choose|t: int| 0 <= t < perm@.len() && perm@[t] == b as usize;
                assert(texts(r@)[t] == x);
            }
        }
        if distinct_texts(texts(v@)) {
            assert forall|a: int, b: int| 0 <= a < b < texts(r@).len() implies texts(r@)[a] != texts(r@)[b] by {
                assert(perm@[a] != perm@[b]);
                assert(texts(r@)[a] == texts(v@)[perm@[a] as int]);
                assert(texts(r@)[b] == texts(v@)[perm@[b] as int]);
                if perm@[a] < perm@[b] {
                } else {
                }
            }
        }
    }
    r
}

} // verus!
