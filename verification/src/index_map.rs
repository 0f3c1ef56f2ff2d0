//! The insertion-ordered map of the `indexmap` crate, as the library uses it:
//! positions of tokens mapped to their replacements.
use vstd::prelude::*;
use indexmap::IndexMap;

verus! {

#[verifier::external_type_specification]
#[verifier::external_body]
#[verifier::reject_recursive_types(K)]
#[verifier::reject_recursive_types(V)]
#[verifier::reject_recursive_types(S)]
pub struct ExIndexMap<K, V, S>(IndexMap<K, V, S>);

/// The entries of the map, in its iteration order.
pub uninterp spec fn index_map_entries(m: IndexMap<usize, String>) -> Seq<(usize, Seq<char>)>;

/// `e` with `(k, v)` inserted as `IndexMap::insert` does: an existing key
/// keeps its place and takes the new value, a new key goes last.
pub open spec fn entries_insert(e: Seq<(usize, Seq<char>)>, k: usize, v: Seq<char>) -> Seq<
    (usize, Seq<char>),
> {
    if exists|i: int| 0 <= i < e.len() && e[i].0 == k {
        let i = choose|i: int| 0 <= i < e.len() && e[i].0 == k;
        e.update(i, (k, v))
    } else {
        e.push((k, v))
    }
}

/// Each entry after an insertion is the entry that stood there before or
/// carries the inserted key.
pub proof fn lemma_entries_insert_keys(e: Seq<(usize, Seq<char>)>, k: usize, v: Seq<char>)
    ensures
        entries_insert(e, k, v).len() >= e.len(),
        forall|a: int|
            0 <= a < entries_insert(e, k, v).len() ==> (a < e.len() && #[trigger] entries_insert(e, k, v)[a]
                == e[a]) || entries_insert(e, k, v)[a].0 == k,
{
}

/// Calls `IndexMap::new`. Claimed: the new map has no entries.
#[verifier::external_body]
pub(crate) fn index_map_new() -> (m: IndexMap<usize, String>)
    ensures
        index_map_entries(m) == Seq::<(usize, Seq<char>)>::empty(),
{
    IndexMap::new()
}

/// Calls `IndexMap::insert`. Claimed, as its documentation says: an
/// existing key keeps its position and takes the new value, a new key is
/// placed last.
#[verifier::external_body]
pub(crate) fn index_map_insert(m: &mut IndexMap<usize, String>, k: usize, v: String)
    ensures
        index_map_entries(*final(m)) == entries_insert(index_map_entries(*old(m)), k, v@),
{
    m.insert(k, v);
}

/// Consumes the map with `IntoIterator::into_iter`, which hands out the
/// entries in their order. Claimed: the vector holds those entries.
#[verifier::external_body]
pub(crate) fn index_map_into_entries(m: IndexMap<usize, String>) -> (r: Vec<(usize, String)>)
    ensures
        r@.map_values(|p: (usize, String)| (p.0, p.1@)) == index_map_entries(m),
{
    m.into_iter().collect()
}

} // verus!

verus! {

/// The entries of a map from names to texts, in its order.
pub uninterp spec fn string_map_entries(m: IndexMap<String, String>) -> Seq<(Seq<char>, Seq<char>)>;

/// The text that the first entry named `key` holds, if there is one.
pub open spec fn lookup(e: Seq<(Seq<char>, Seq<char>)>, key: Seq<char>) -> Option<Seq<char>>
    decreases e.len(),
{
    if e.len() == 0 {
        None
    } else if e[0].0 == key {
        Some(e[0].1)
    } else {
        lookup(e.drop_first(), key)
    }
}

/// Calls `IndexMap::get` and clones what it finds. Claimed: the value of
/// the entry with that key, if there is one (an `IndexMap` holds each key
/// once, so the first entry with the key is the one).
#[verifier::external_body]
pub(crate) fn string_map_get(m: &IndexMap<String, String>, key: &str) -> (r: Option<String>)
    ensures
        crate::regex_ops::opt_view(r) == lookup(string_map_entries(*m), key@),
{
    m.get(key).cloned()
}

} // verus!
