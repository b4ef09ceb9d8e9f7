//! Groups of operators in order of first appearance, held in an
//! `indexmap::IndexMap` from a group's key to the positions of its
//! operators.

use vstd::prelude::*;
use indexmap::IndexMap;

verus! {

/// The entries of a group map, key and positions, in insertion order.
pub uninterp spec fn group_entries(map: IndexMap<String, Vec<usize>>) -> Seq<(Seq<char>, Seq<usize>)>;

/// The position of the first entry of `entries` under `key`, or -1.
pub open spec fn entry_index(entries: Seq<(Seq<char>, Seq<usize>)>, key: Seq<char>) -> int
    decreases entries.len(),
{
    if entries.len() == 0 {
        -1
    } else {
        let i = entry_index(entries.drop_last(), key);
        if i >= 0 {
            i
        } else if entries.last().0 == key {
            entries.len() - 1
        } else {
            -1
        }
    }
}

/// The views of a list of entries.
pub open spec fn entry_views(v: Seq<(String, Vec<usize>)>) -> Seq<(Seq<char>, Seq<usize>)> {
    v.map_values(|e: (String, Vec<usize>)| (e.0@, e.1@))
}

/// `entry_index` finds the first entry under `key`, and -1 exactly when
/// there is none.
pub proof fn lemma_entry_index(entries: Seq<(Seq<char>, Seq<usize>)>, key: Seq<char>)
    ensures
        entry_index(entries, key) == -1 <==> forall|t: int| 0 <= t < entries.len() ==> #[trigger] entries[t].0 != key,
        entry_index(entries, key) >= 0 ==> ({
            let j = entry_index(entries, key);
            &&& j < entries.len()
            &&& entries[j].0 == key
            &&& forall|t: int| 0 <= t < j ==> #[trigger] entries[t].0 != key
        }),
        entry_index(entries, key) >= -1,
    decreases entries.len(),
{
    if entries.len() > 0 {
        let p = entries.drop_last();
        let n = entries.len() - 1;
        lemma_entry_index(p, key);
        let i = entry_index(p, key);
        if i >= 0 {
            assert(entries[i].0 == p[i].0);
            assert forall|t: int| 0 <= t < i implies #[trigger] entries[t].0 != key by {
                assert(entries[t].0 == p[t].0);
            }
        } else if entries.last().0 == key {
            assert forall|t: int| 0 <= t < n implies #[trigger] entries[t].0 != key by {
                assert(entries[t].0 == p[t].0);
            }
        } else {
            assert forall|t: int| 0 <= t < entries.len() implies #[trigger] entries[t].0 != key by {
                if t < n {
                    assert(entries[t].0 == p[t].0);
                }
            }
        }
    }
}

/// `IndexMap::new`: the map it makes holds nothing.
#[verifier::external_body]
pub(crate) fn new_group_map() -> (map: IndexMap<String, Vec<usize>>)
    ensures
        group_entries(map) == Seq::<(Seq<char>, Seq<usize>)>::empty(),
{
    IndexMap::new()
}

/// `IndexMap::insert`: under a key already held, the value is replaced in
/// place and the old one given back; a new key goes to the end with its
/// value.
#[verifier::external_body]
pub(crate) fn group_map_insert(map: &mut IndexMap<String, Vec<usize>>, key: String, value: Vec<usize>) -> (res: Option<
    Vec<usize>,
>)
    ensures
        entry_index(group_entries(*old(map)), key@) >= 0 ==> ({
            let j = entry_index(group_entries(*old(map)), key@);
            &&& res matches Some(v) && v@ == group_entries(*old(map))[j].1
            &&& group_entries(*final(map)) == group_entries(*old(map)).update(j, (key@, value@))
        }),
        entry_index(group_entries(*old(map)), key@) < 0 ==> ({
            &&& res is None
            &&& group_entries(*final(map)) == group_entries(*old(map)).push((key@, value@))
        }),
{
    map.insert(key, value)
}

/// `IndexMap::into_iter`: the entries in order.
#[verifier::external_body]
pub(crate) fn group_map_into_vec(map: IndexMap<String, Vec<usize>>) -> (res: Vec<(String, Vec<usize>)>)
    ensures
        entry_views(res@) == group_entries(map),
{
    map.into_iter().collect()
}

} // verus!
