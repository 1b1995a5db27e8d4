//! Extending a map.

use std::collections::HashMap;
use std::hash::Hash;
use vstd::prelude::*;
use vstd::std_specs::hash::obeys_key_model;

verus! {

broadcast use vstd::std_specs::hash::group_hash_axioms;

/// The map with the entries entered in order, a later one over an earlier.
pub open spec fn extended<K, V>(map: Map<K, V>, entries: Seq<(K, V)>) -> Map<K, V>
    decreases entries.len(),
{
    if entries.len() == 0 {
        map
    } else {
        extended(map, entries.drop_last()).insert(entries.last().0, entries.last().1)
    }
}

/// The keys of those entries that found their key in the map when they were
/// entered, in the order of the entries: the key was in `map`, or an earlier
/// entry had it.
pub open spec fn replaced_keys<K, V>(map: Map<K, V>, entries: Seq<(K, V)>) -> Seq<K>
    decreases entries.len(),
{
    if entries.len() == 0 {
        Seq::empty()
    } else {
        let earlier = replaced_keys(map, entries.drop_last());
        if extended(map, entries.drop_last()).contains_key(entries.last().0) {
            earlier.push(entries.last().0)
        } else {
            earlier
        }
    }
}

/// `copies` holds a clone of each of `keys`, in order.
pub open spec fn clones_of<K: Clone>(copies: Seq<K>, keys: Seq<K>) -> bool {
    &&& copies.len() == keys.len()
    &&& forall|i: int| 0 <= i < keys.len() ==> cloned(keys[i], #[trigger] copies[i])
}

/// Extends a map by the entries `b`, in order, and returns the keys that
/// were present already when their entry was entered: a clone of each, in
/// the order of the entries.
pub fn extend_safe<K: Eq + Hash + Clone, V>(a: &mut HashMap<K, V>, b: Vec<(K, V)>) -> (present: Vec<K>)
    ensures
        obeys_key_model::<K>() ==> final(a)@ == extended(old(a)@, b@),
        obeys_key_model::<K>() ==> clones_of(present@, replaced_keys(old(a)@, b@)),
{
    let ghost before = a@;
    let ghost entries = b@;
    let mut present: Vec<K> = Vec::new();
    assert(entries.take(0) =~= Seq::<(K, V)>::empty());
    for entry in it: b
        invariant
            it.seq() == entries,
            obeys_key_model::<K>() ==> a@ == extended(before, entries.take(it.index() as int)),
            obeys_key_model::<K>() ==> clones_of(
                present@,
                replaced_keys(before, entries.take(it.index() as int)),
            ),
    {
        let ghost n = it.index() as int;
        let ghost earlier = present@;
        proof {
            assert(entries.take(n + 1).drop_last() =~= entries.take(n));
            assert(entries.take(n + 1).last() == entry);
        }
        let (key, value) = entry;
        let copy = key.clone();
        match a.insert(key, value) {
            Some(_) => {
                present.push(copy);
                assert(present@ =~= earlier.push(copy));
            },
            None => {},
        }
    }
    assert(entries.take(entries.len() as int) =~= entries);
    present
}

} // verus!
