//! Name-keyed association sequences. Functions, basic blocks, globals,
//! parameters and locals are all stored in insertion order and keyed by
//! unique names; these helpers give that discipline one vocabulary.

use vstd::prelude::*;

verus! {

/// Whether some entry carries the key.
pub open spec fn has_key<V>(m: Seq<(Seq<char>, V)>, k: Seq<char>) -> bool {
    exists|i: int| 0 <= i < m.len() && m[i].0 == k
}

/// Whether no two entries carry the same key.
pub open spec fn distinct_keys<V>(m: Seq<(Seq<char>, V)>) -> bool {
    forall|i: int, j: int| 0 <= i < j < m.len() ==> m[i].0 != m[j].0
}

/// The first index carrying the key.
pub open spec fn key_index<V>(m: Seq<(Seq<char>, V)>, k: Seq<char>) -> int
    decreases m.len(),
{
    if m.len() == 0 {
        0
    } else if m[0].0 == k {
        0
    } else {
        1 + key_index(m.skip(1), k)
    }
}

/// The value stored under the key, taken at its first occurrence.
pub open spec fn value_for<V>(m: Seq<(Seq<char>, V)>, k: Seq<char>) -> V {
    m[key_index(m, k)].1
}

/// The first occurrence of a present key is a real index that carries it,
/// and nothing before it does.
pub proof fn lemma_key_index<V>(m: Seq<(Seq<char>, V)>, k: Seq<char>)
    requires
        has_key(m, k),
    ensures
        0 <= key_index(m, k) < m.len(),
        m[key_index(m, k)].0 == k,
        forall|j: int| 0 <= j < key_index(m, k) ==> m[j].0 != k,
    decreases m.len(),
{
    if m.len() > 0 && m[0].0 != k {
        assert(has_key(m.skip(1), k)) by {
            let i = choose|i: int| 0 <= i < m.len() && m[i].0 == k;
            assert(m.skip(1)[i - 1] == m[i]);
        }
        lemma_key_index(m.skip(1), k);
        assert forall|j: int| 0 <= j < key_index(m, k) implies m[j].0 != k by {
            if j > 0 {
                assert(m.skip(1)[j - 1] == m[j]);
            }
        }
    }
}

/// An index that carries the key, with no earlier one carrying it, is
/// the first occurrence.
pub proof fn lemma_first_key_index<V>(m: Seq<(Seq<char>, V)>, k: Seq<char>, i: int)
    requires
        0 <= i < m.len(),
        m[i].0 == k,
        forall|j: int| 0 <= j < i ==> m[j].0 != k,
    ensures
        key_index(m, k) == i,
    decreases i,
{
    if i > 0 {
        assert(m[0].0 != k);
        assert forall|j: int| 0 <= j < i - 1 implies m.skip(1)[j].0 != k by {
            assert(m.skip(1)[j] == m[j + 1]);
        }
        assert(m.skip(1)[i - 1] == m[i]);
        lemma_first_key_index(m.skip(1), k, i - 1);
    }
}

/// The view of a stored name-keyed entry sequence: each name as its
/// character sequence, each value as its view.
pub open spec fn entry_views<V: View>(entries: Seq<(String, V)>) -> Seq<(Seq<char>, V::V)> {
    entries.map_values(|e: (String, V)| (e.0@, e.1@))
}

/// Transfers what an in-order scan of the stored pairs found to the
/// view-level key predicate.
pub proof fn lemma_lookup_views<V: View>(
    entries: Seq<(String, V)>,
    k: Seq<char>,
    found: Option<usize>,
)
    requires
        match found {
            Some(i) => 0 <= i < entries.len() && entries[i as int].0@ == k,
            None => forall|j: int| 0 <= j < entries.len() ==> entries[j].0@ != k,
        },
    ensures
        found is Some ==> has_key(entry_views(entries), k),
        found is None ==> !has_key(entry_views(entries), k),
{
    let m = entry_views(entries);
    match found {
        Some(i) => {
            assert(m[i as int].0 == k);
        },
        None => {
            assert forall|j: int| 0 <= j < m.len() implies m[j].0 != k by {
                assert(m[j].0 == entries[j].0@);
            }
        },
    }
}

/// Compares two names character for character.
pub fn string_eq(a: &String, b: &String) -> (r: bool)
    ensures
        r == (a@ == b@),
{
    *a == *b
}

/// Finds the first entry whose name equals `name`, scanning in order.
pub fn lookup_index<V>(entries: &Vec<(String, V)>, name: &String) -> (r: Option<usize>)
    ensures
        match r {
            Some(i) => 0 <= i < entries@.len() && entries@[i as int].0@ == name@ && (forall|j: int|
                0 <= j < i ==> entries@[j].0@ != name@),
            None => forall|j: int| 0 <= j < entries@.len() ==> entries@[j].0@ != name@,
        },
{
    let mut i: usize = 0;
    while i < entries.len()
        invariant
            i <= entries.len(),
            forall|j: int| 0 <= j < i ==> entries@[j].0@ != name@,
        decreases entries.len() - i,
    {
        if entries[i].0 == *name {
            return Some(i);
        }
        i = i + 1;
    }
    None
}

/// Whether two entries of the sequence share a name.
pub fn find_duplicate_key<V: View>(entries: &Vec<(String, V)>) -> (r: bool)
    ensures
        r == !distinct_keys(entry_views(entries@)),
{
    let ghost m = entry_views(entries@);
    let mut i: usize = 1;
    while i < entries.len()
        invariant
            1 <= i || entries@.len() == 0,
            i <= entries.len() || entries@.len() == 0,
            m == entry_views(entries@),
            m.len() == entries@.len(),
            forall|p: int, q: int| 0 <= p < q < i ==> m[p].0 != m[q].0,
        decreases entries.len() - i,
    {
        let mut j: usize = 0;
        while j < i
            invariant
                j <= i,
                i < entries.len(),
                m == entry_views(entries@),
                m.len() == entries@.len(),
                forall|q: int| 0 <= q < j ==> m[q].0 != m[i as int].0,
            decreases i - j,
        {
            if entries[j].0 == entries[i].0 {
                assert(m[j as int].0 == m[i as int].0);
                return true;
            }
            j = j + 1;
        }
        i = i + 1;
    }
    proof {
        if entries@.len() > 0 {
            assert(distinct_keys(m));
        } else {
            assert(distinct_keys(m));
        }
    }
    false
}

} // verus!
