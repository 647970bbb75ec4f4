//! Hash maps keyed by an integer and hashed by `fnv`.
use vstd::prelude::*;
use fnv::{FnvHashMap, FnvHasher};
use std::hash::BuildHasherDefault;

verus! {

/// `fnv::FnvHasher`.
#[verifier::external_type_specification]
#[verifier::external_body]
pub struct ExFnvHasher(FnvHasher);

/// `std::hash::BuildHasherDefault`, with which `fnv` builds its hashers.
#[verifier::external_type_specification]
#[verifier::external_body]
#[verifier::reject_recursive_types(Hashes)]
pub struct ExBuildHasherDefault<Hashes>(BuildHasherDefault<Hashes>);

/// `HashMap::extend` on a map hashed by `fnv`: every entry of `other` is put into the map, over
/// the one that had its key.
#[verifier::external_body]
pub(crate) fn fnv_extend<V>(map: &mut FnvHashMap<u64, V>, other: FnvHashMap<u64, V>)
    ensures
        final(map)@ == old(map)@.union_prefer_right(other@),
{
    map.extend(other)
}

/// `HashMap::insert` on a map hashed by `fnv`: the key is then mapped to the value.
#[verifier::external_body]
pub(crate) fn fnv_insert<V>(map: &mut FnvHashMap<u64, V>, key: u64, value: V)
    ensures
        final(map)@ == old(map)@.insert(key, value),
{
    map.insert(key, value);
}

/// `HashMap::remove` on a map hashed by `fnv`: the key is then mapped to nothing.
#[verifier::external_body]
pub(crate) fn fnv_remove<V>(map: &mut FnvHashMap<u64, V>, key: u64)
    ensures
        final(map)@ == old(map)@.remove(key),
{
    map.remove(&key);
}

/// `HashMap::get` on a map hashed by `fnv`: the value that the key is mapped to.
#[verifier::external_body]
pub(crate) fn fnv_get<'a, V>(map: &'a FnvHashMap<u64, V>, key: u64) -> (value: Option<&'a V>)
    ensures
        value == (if map@.contains_key(key) {
            Some(&map@[key])
        } else {
            None
        }),
{
    map.get(&key)
}

/// The entries of `map`, each once, are those of `entries`.
pub open spec fn enumerates<V>(entries: Seq<(u64, V)>, map: Map<u64, V>) -> bool {
    &&& forall|i: int, j: int|
        0 <= i < entries.len() && 0 <= j < entries.len() && i != j ==> (#[trigger] entries[i]).0 != (
        #[trigger] entries[j]).0
    &&& forall|i: int|
        #![trigger entries[i]]
        0 <= i < entries.len() ==> map.contains_key(entries[i].0) && map[entries[i].0]
            == entries[i].1
    &&& forall|key: u64|
        map.contains_key(key) ==> #[trigger] entries.contains((key, map[key]))
}

/// `HashMap::iter` on a map hashed by `fnv`: every entry comes once, in an order of which nothing
/// is said.
#[verifier::external_body]
pub(crate) fn fnv_entries(map: &FnvHashMap<u64, usize>) -> (entries: Vec<(u64, usize)>)
    ensures
        enumerates(entries@, map@),
{
    map.iter().map(|entry| (*entry.0, *entry.1)).collect()
}

} // verus!
