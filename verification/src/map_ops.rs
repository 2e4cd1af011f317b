//! Operations of the standard ordered map that the kernel relies on, with
//! what the standard library documents of them, over maps keyed by `u64`.

use std::collections::BTreeMap;
use vstd::prelude::*;

verus! {

/// `BTreeMap::pop_first`: removes the entry with the least key and returns
/// it; an empty map stays empty and gives `None`.
#[verifier::external_body]
pub(crate) fn map_pop_first<V>(m: &mut BTreeMap<u64, V>) -> (r: Option<(u64, V)>)
    ensures
        old(m)@.dom().len() == 0 ==> r.is_none() && final(m)@ == old(m)@,
        old(m)@.dom().len() > 0 ==> r.is_some() && old(m)@.contains_key(r.unwrap().0) && r.unwrap().1
            == old(m)@[r.unwrap().0] && final(m)@ == old(m)@.remove(r.unwrap().0) && (forall|j: u64|
            old(m)@.contains_key(j) ==> r.unwrap().0 <= j),
{
    m.pop_first()
}

/// `BTreeMap::last_key_value`: the greatest key of the map, `None` for an
/// empty map.
#[verifier::external_body]
pub(crate) fn map_last_key<V>(m: &BTreeMap<u64, V>) -> (r: Option<u64>)
    ensures
        m@.dom().len() == 0 ==> r.is_none(),
        m@.dom().len() > 0 ==> r.is_some() && m@.contains_key(r.unwrap()) && (forall|j: u64|
            m@.contains_key(j) ==> j <= r.unwrap()),
{
    m.last_key_value().map(|entry| *entry.0)
}

/// The keys that are less than `key`.
pub open spec fn keys_below(key: u64) -> Set<u64> {
    Set::new(|k: u64| k < key)
}

/// `BTreeMap::split_off`: the entries whose key is at least `key` move to the
/// map that is returned; those with a smaller key stay.
#[verifier::external_body]
pub(crate) fn map_split_off<V>(m: &mut BTreeMap<u64, V>, key: u64) -> (r: BTreeMap<u64, V>)
    ensures
        final(m)@ == old(m)@.restrict(keys_below(key)),
        r@ == old(m)@.remove_keys(keys_below(key)),
{
    m.split_off(&key)
}

/// The least key of a map that is not empty.
pub open spec fn least_key<V>(m: Map<u64, V>) -> u64 {
    choose|k: u64| m.contains_key(k) && forall|j: u64| m.contains_key(j) ==> k <= j
}

/// A key of the map that no other key is below is the map's least key.
pub proof fn lemma_least_key<V>(m: Map<u64, V>, k: u64)
    requires
        m.contains_key(k),
        forall|j: u64| m.contains_key(j) ==> k <= j,
    ensures
        least_key(m) == k,
{
    let c = least_key(m);
    assert(m.contains_key(c) && forall|j: u64| m.contains_key(j) ==> c <= j);
}

/// A map that holds a key has a least key.
pub proof fn lemma_least_key_exists<V>(m: Map<u64, V>, k: u64)
    requires
        m.contains_key(k),
    ensures
        m.contains_key(least_key(m)),
        forall|j: u64| m.contains_key(j) ==> least_key(m) <= j,
    decreases k,
{
    if forall|j: u64| m.contains_key(j) ==> k <= j {
        lemma_least_key(m, k);
    } else {
        let below = choose|j: u64| m.contains_key(j) && !(k <= j);
        lemma_least_key_exists(m, below);
    }
}

} // verus!
