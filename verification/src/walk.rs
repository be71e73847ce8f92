//! Walking through a hash map, whose order is open.
use std::collections::HashMap;
use vstd::prelude::*;
use vstd::std_specs::hash::spec_hash_map_iter;
use vstd::std_specs::iter::IteratorSpec;

verus! {

broadcast use vstd::std_specs::hash::group_hash_axioms;

/// The pairs are those of the map, each once, in some order.
pub open spec fn enumerates<K, V>(pairs: Seq<(K, V)>, map: Map<K, V>) -> bool {
    &&& forall|i: int, j: int|
        0 <= i < j < pairs.len() ==> (#[trigger] pairs[i]).0 != (#[trigger] pairs[j]).0
    &&& forall|i: int|
        0 <= i < pairs.len() ==> map.contains_key((#[trigger] pairs[i]).0) && map[pairs[i].0]
            == pairs[i].1
    &&& forall|k: K| #[trigger]
        map.contains_key(k) ==> exists|i: int| 0 <= i < pairs.len() && (#[trigger] pairs[i]).0 == k
}

/// The walk meets each entry of the map once.
pub(crate) open spec fn walks<K, V>(walk: Seq<(&K, &V)>, map: Map<K, V>) -> bool {
    &&& forall|i: int, j: int|
        0 <= i < j < walk.len() ==> *(#[trigger] walk[i]).0 != *(#[trigger] walk[j]).0
    &&& forall|i: int|
        0 <= i < walk.len() ==> map.contains_key(*(#[trigger] walk[i]).0) && map[*walk[i].0]
            == *walk[i].1
    &&& forall|k: K| #[trigger]
        map.contains_key(k) ==> exists|i: int| 0 <= i < walk.len() && *(#[trigger] walk[i]).0 == k
}

/// Iterating over a hash map, which yields nothing twice, is a walk through it.
pub(crate) proof fn lemma_iteration_walks<K, V>(map: &HashMap<K, V>)
    ensures
        IteratorSpec::remaining(&spec_hash_map_iter(map)).no_duplicates() ==> walks(
            IteratorSpec::remaining(&spec_hash_map_iter(map)),
            map@,
        ),
{
    let walk = IteratorSpec::remaining(&spec_hash_map_iter(map));
    if walk.no_duplicates() {
        assert forall|i: int| 0 <= i < walk.len() implies map@.contains_key(
            *(#[trigger] walk[i]).0,
        ) && map@[*walk[i].0] == *walk[i].1 by {}
        assert forall|i: int, j: int| 0 <= i < j < walk.len() implies *(#[trigger] walk[i]).0 != *(
        #[trigger] walk[j]).0 by {
            assert(walk[i] != walk[j]);
        }
        assert forall|k: K| #[trigger] map@.contains_key(k) implies exists|i: int|
            0 <= i < walk.len() && *(#[trigger] walk[i]).0 == k by {
            assert(walk.contains((&k, &map@[k])));
            let i = choose|i: int| 0 <= i < walk.len() && walk[i] == (&k, &map@[k]);
            assert(*walk[i].0 == k);
        }
    }
}

/// The pairs are those of `wanted` whose keys are among the first `n` on the walk.
pub(crate) open spec fn enumerates_walked<K, V, W>(
    pairs: Seq<(K, W)>,
    wanted: Map<K, W>,
    walk: Seq<(&K, &V)>,
    n: int,
) -> bool {
    &&& forall|i: int, j: int|
        0 <= i < j < pairs.len() ==> (#[trigger] pairs[i]).0 != (#[trigger] pairs[j]).0
    &&& forall|i: int|
        0 <= i < pairs.len() ==> wanted.contains_key((#[trigger] pairs[i]).0) && wanted[pairs[i].0]
            == pairs[i].1
    &&& forall|i: int, j: int|
        0 <= i < pairs.len() && n <= j < walk.len() ==> (#[trigger] pairs[i]).0 != *(
        #[trigger] walk[j]).0
    &&& forall|j: int|
        0 <= j < n && wanted.contains_key(*(#[trigger] walk[j]).0) ==> exists|i: int|
            0 <= i < pairs.len() && (#[trigger] pairs[i]).0 == *walk[j].0
}

/// One step on the walk: the pair of the next key is appended if it is wanted.
pub(crate) proof fn lemma_walk_step<K, V, W>(
    pairs: Seq<(K, W)>,
    wanted: Map<K, W>,
    walk: Seq<(&K, &V)>,
    map: Map<K, V>,
    n: int,
)
    requires
        walks(walk, map),
        0 <= n < walk.len(),
        enumerates_walked(pairs, wanted, walk, n),
    ensures
        wanted.contains_key(*walk[n].0) ==> enumerates_walked(
            pairs.push((*walk[n].0, wanted[*walk[n].0])),
            wanted,
            walk,
            n + 1,
        ),
        !wanted.contains_key(*walk[n].0) ==> enumerates_walked(pairs, wanted, walk, n + 1),
{
    let key = *walk[n].0;
    let longer = pairs.push((key, wanted[key]));
    assert(longer[pairs.len() as int].0 == key);
    assert forall|j: int| 0 <= j < n && wanted.contains_key(*(#[trigger] walk[j]).0) implies exists|
        i: int,
    | 0 <= i < longer.len() && (#[trigger] longer[i]).0 == *walk[j].0 by {
        let i = choose|i: int| 0 <= i < pairs.len() && (#[trigger] pairs[i]).0 == *walk[j].0;
        assert(longer[i].0 == *walk[j].0);
    }
}

/// At the end of the walk all pairs of `wanted` have been met, if the hash map holds its keys.
pub(crate) proof fn lemma_walk_end<K, V, W>(
    pairs: Seq<(K, W)>,
    wanted: Map<K, W>,
    walk: Seq<(&K, &V)>,
    map: Map<K, V>,
)
    requires
        walks(walk, map),
        enumerates_walked(pairs, wanted, walk, walk.len() as int),
        wanted.dom().subset_of(map.dom()),
    ensures
        enumerates(pairs, wanted),
{
    assert forall|k: K| #[trigger] wanted.contains_key(k) implies exists|i: int|
        0 <= i < pairs.len() && (#[trigger] pairs[i]).0 == k by {
        assert(map.dom().contains(k));
        let j = choose|j: int| 0 <= j < walk.len() && *(#[trigger] walk[j]).0 == k;
        assert(wanted.contains_key(*walk[j].0));
    }
}

} // verus!
