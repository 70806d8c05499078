//! The named instructions that follow the system prompt, kept in an
//! insertion-ordered map: a key keeps its place when its text changes,
//! and removing a key keeps the order of the others.
use crate::text::{sanitize_unicode_tags, without_tags};
use indexmap::IndexMap;
use vstd::prelude::*;

verus! {

#[verifier::external_type_specification]
#[verifier::external_body]
#[verifier::reject_recursive_types(K)]
#[verifier::reject_recursive_types(V)]
#[verifier::reject_recursive_types(S)]
pub struct ExIndexMap<K, V, S>(IndexMap<K, V, S>);

/// The entries of a map of named instructions, in order: each a key and
/// its text.
pub uninterp spec fn index_map_entries(m: IndexMap<String, String>) -> Seq<(Seq<char>, Seq<char>)>;

/// Entries of a map: keys and texts in order.
pub type Entries = Seq<(Seq<char>, Seq<char>)>;

/// The position of `k` among the keys, or -1.
pub open spec fn key_position(e: Entries, k: Seq<char>) -> int
    decreases e.len(),
{
    if e.len() == 0 {
        -1
    } else if e.last().0 == k {
        e.len() - 1
    } else {
        key_position(e.drop_last(), k)
    }
}

/// No key occurs twice.
pub open spec fn keys_distinct(e: Entries) -> bool {
    forall|i: int, j: int| 0 <= i < j < e.len() ==> e[i].0 != e[j].0
}

/// Inserting: a present key gets the new text in its place, a new key is
/// appended.
pub open spec fn map_insert(e: Entries, k: Seq<char>, v: Seq<char>) -> Entries {
    let p = key_position(e, k);
    if p >= 0 {
        e.update(p, (k, v))
    } else {
        e.push((k, v))
    }
}

/// Removing: a present key leaves, the others keep their order.
pub open spec fn map_remove(e: Entries, k: Seq<char>) -> Entries {
    let p = key_position(e, k);
    if p >= 0 {
        e.remove(p)
    } else {
        e
    }
}

/// Inserting several pairs, in order.
pub open spec fn map_insert_all(e: Entries, pairs: Seq<(Seq<char>, Seq<char>)>) -> Entries
    decreases pairs.len(),
{
    if pairs.len() == 0 {
        e
    } else {
        map_insert(map_insert_all(e, pairs.drop_last()), pairs.last().0, pairs.last().1)
    }
}

/// The texts of the entries, in order.
pub open spec fn entry_texts(e: Entries) -> Seq<Seq<char>> {
    e.map_values(|p: (Seq<char>, Seq<char>)| p.1)
}

/// The entries with every text sanitised.
pub open spec fn sanitized_entries(e: Entries) -> Entries {
    e.map_values(|p: (Seq<char>, Seq<char>)| (p.0, without_tags(p.1)))
}

pub proof fn lemma_key_position(e: Entries, k: Seq<char>)
    ensures
        ({
            let p = key_position(e, k);
            &&& -1 <= p < e.len()
            &&& p >= 0 ==> e[p].0 == k
            &&& p < 0 ==> forall|i: int| 0 <= i < e.len() ==> e[i].0 != k
        }),
    decreases e.len(),
{
    if e.len() > 0 && e.last().0 != k {
        lemma_key_position(e.drop_last(), k);
        let p = key_position(e.drop_last(), k);
        if p < 0 {
            assert forall|i: int| 0 <= i < e.len() implies e[i].0 != k by {
                if i < e.len() - 1 {
                    assert(e[i] == e.drop_last()[i]);
                }
            }
        }
    }
}

/// Removing a key that was just inserted, and was not there before,
/// gives back the instructions as they were.
pub proof fn lemma_remove_undoes_insert(e: Entries, k: Seq<char>, v: Seq<char>)
    requires
        key_position(e, k) < 0,
    ensures
        map_remove(map_insert(e, k, v), k) == e,
{
    lemma_key_position(e, k);
    let pushed = e.push((k, v));
    assert(pushed.drop_last() =~= e);
    assert(key_position(pushed, k) == e.len());
    assert(pushed.remove(e.len() as int) =~= e);
}

/// Setting a key that is present changes only its text: the keys and
/// their order stay.
pub proof fn lemma_insert_present_keeps_keys(e: Entries, k: Seq<char>, v: Seq<char>)
    requires
        key_position(e, k) >= 0,
    ensures
        map_insert(e, k, v).len() == e.len(),
        forall|i: int| 0 <= i < e.len() ==> (#[trigger] map_insert(e, k, v)[i]).0 == e[i].0,
        map_insert(e, k, v)[key_position(e, k)].1 == v,
{
    lemma_key_position(e, k);
}

/// `IndexMap::new`: an empty map.
#[verifier::external_body]
pub(crate) fn index_map_new() -> (m: IndexMap<String, String>)
    ensures
        index_map_entries(m) == Seq::<(Seq<char>, Seq<char>)>::empty(),
{
    IndexMap::new()
}

/// `IndexMap::insert`: a present key keeps its place and takes the new
/// text; a new key is appended last. Keys stay distinct.
#[verifier::external_body]
pub(crate) fn index_map_insert(m: &mut IndexMap<String, String>, key: String, value: String)
    ensures
        index_map_entries(*final(m)) == map_insert(index_map_entries(*old(m)), key@, value@),
        keys_distinct(index_map_entries(*final(m))),
{
    m.insert(key, value);
}

/// `IndexMap::shift_remove`: a present key leaves, and the entries after
/// it shift down, keeping their order. Keys stay distinct.
#[verifier::external_body]
pub(crate) fn index_map_shift_remove(m: &mut IndexMap<String, String>, key: &str)
    ensures
        index_map_entries(*final(m)) == map_remove(index_map_entries(*old(m)), key@),
        keys_distinct(index_map_entries(*final(m))),
{
    m.shift_remove(key);
}

/// `IndexMap::len`: the number of entries.
#[verifier::external_body]
pub(crate) fn index_map_len(m: &IndexMap<String, String>) -> (n: usize)
    ensures
        n == index_map_entries(*m).len(),
{
    m.len()
}

/// `IndexMap::get_index` (with the pair copied out): the entry at
/// position `i`.
#[verifier::external_body]
pub(crate) fn index_map_get_index(m: &IndexMap<String, String>, i: usize) -> (r: (String, String))
    requires
        i < index_map_entries(*m).len(),
    ensures
        (r.0@, r.1@) == index_map_entries(*m)[i as int],
{
    let (k, v) = m.get_index(i).unwrap();
    (k.clone(), v.clone())
}

/// `IndexMap::clone`: a map with the same entries.
#[verifier::external_body]
pub(crate) fn index_map_clone(m: &IndexMap<String, String>) -> (r: IndexMap<String, String>)
    ensures
        index_map_entries(r) == index_map_entries(*m),
{
    m.clone()
}

/// The texts of a map, in order.
pub fn index_map_texts(m: &IndexMap<String, String>) -> (r: Vec<String>)
    ensures
        crate::text::views_of(r@) == entry_texts(index_map_entries(*m)),
{
    let n = index_map_len(m);
    let ghost e = index_map_entries(*m);
    let mut r: Vec<String> = Vec::new();
    let mut i: usize = 0;
    while i < n
        invariant
            n == e.len(),
            e == index_map_entries(*m),
            i <= n,
            r@.len() == i,
            forall|k: int| 0 <= k < i ==> (#[trigger] r@[k])@ == e[k].1,
        decreases n - i,
    {
        let (_, v) = index_map_get_index(m, i);
        r.push(v);
        i = i + 1;
    }
    proof {
        assert(crate::text::views_of(r@) =~= entry_texts(e));
    }
    r
}

/// A map with the same keys, in the same order, and every text
/// sanitised.
pub fn sanitize_map(m: &IndexMap<String, String>) -> (r: IndexMap<String, String>)
    requires
        keys_distinct(index_map_entries(*m)),
    ensures
        keys_distinct(index_map_entries(r)),
        index_map_entries(r) == sanitized_entries(index_map_entries(*m)),
{
    let n = index_map_len(m);
    let ghost e = index_map_entries(*m);
    let mut r = index_map_new();
    let mut i: usize = 0;
    while i < n
        invariant
            n == e.len(),
            e == index_map_entries(*m),
            keys_distinct(e),
            keys_distinct(index_map_entries(r)),
            i <= n,
            index_map_entries(r) == sanitized_entries(e.take(i as int)),
        decreases n - i,
    {
        let (k, v) = index_map_get_index(m, i);
        let clean = sanitize_unicode_tags(v.as_str());
        let ghost before = index_map_entries(r);
        proof {
            lemma_key_position(before, k@);
            if key_position(before, k@) >= 0 {
                let p = key_position(before, k@);
                assert(before[p] == sanitized_entries(e.take(i as int))[p]);
                assert(e[p].0 == e[i as int].0);
            }
        }
        index_map_insert(&mut r, k, clean);
        proof {
            assert(index_map_entries(r) =~= sanitized_entries(e.take(i as int + 1)));
        }
        i = i + 1;
    }
    proof {
        assert(e.take(n as int) =~= e);
    }
    r
}

} // verus!
