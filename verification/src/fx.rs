//! The hash maps and sets that light storage keys by packed positions.
use rustc_hash::FxBuildHasher;
use std::collections::{HashMap, HashSet};
use vstd::prelude::*;

verus! {

/// `rustc_hash::FxBuildHasher`, the hash builder of `FxHashMap` and
/// `FxHashSet`. Nothing is claimed of the hashes it makes.
#[verifier::external_type_specification]
#[verifier::external_body]
pub struct ExFxBuildHasher(FxBuildHasher);

/// Keys of the maps and sets: positions packed into a number.
pub(crate) trait PackedKey: Copy + Eq + std::hash::Hash {

}

impl PackedKey for u64 {

}

impl PackedKey for u128 {

}

/// `rustc_hash::FxHashMap` keyed by a packed position.
pub type FxMap<K, V> = HashMap<K, V, FxBuildHasher>;

/// `rustc_hash::FxHashSet` of packed positions.
pub type FxSet<K> = HashSet<K, FxBuildHasher>;

/// `FxHashMap::default`: a map without entries.
#[verifier::external_body]
pub(crate) fn map_new<K: PackedKey, V>() -> (result: FxMap<K, V>)
    ensures
        (result@ == Map::<K, V>::empty()),
{
    HashMap::default()
}

/// `FxHashMap::len`: the number of keys.
#[verifier::external_body]
pub(crate) fn map_len<K: PackedKey, V>(map: &FxMap<K, V>) -> (result: usize)
    ensures
        result == map@.len(),
{
    map.len()
}

/// `FxHashMap::is_empty`: whether the map has no keys.
#[verifier::external_body]
pub(crate) fn map_is_empty<K: PackedKey, V>(map: &FxMap<K, V>) -> (result: bool)
    ensures
        result == map@.is_empty(),
{
    map.is_empty()
}

/// `FxHashMap::contains_key`: whether the key has an entry.
#[verifier::external_body]
pub(crate) fn map_contains<K: PackedKey, V>(map: &FxMap<K, V>, key: K) -> (result: bool)
    ensures
        result == map@.contains_key(key),
{
    map.contains_key(&key)
}

/// `FxHashMap::get`: the value of the key's entry, if it has one.
#[verifier::external_body]
pub(crate) fn map_get<K: PackedKey, V>(map: &FxMap<K, V>, key: K) -> (result: Option<&V>)
    ensures
        match result {
            Some(value) => map@.contains_key(key) && *value == map@[key],
            None => !map@.contains_key(key),
        },
{
    map.get(&key)
}

/// `FxHashMap::get_mut`: the place of the key's value, if it has one. What is
/// written there is what the map holds afterwards.
#[verifier::external_body]
pub(crate) fn map_get_mut<K: PackedKey, V>(map: &mut FxMap<K, V>, key: K) -> (result: Option<&mut V>)
    ensures
        match result {
            Some(value) => old(map)@.contains_key(key) && *value == old(map)@[key] && final(map)@
                == old(map)@.insert(key, *final(value)),
            None => !old(map)@.contains_key(key) && final(map)@ == old(map)@,
        },
{
    map.get_mut(&key)
}

/// `FxHashMap::insert`: gives the key the value, and returns the value it had.
#[verifier::external_body]
pub(crate) fn map_insert<K: PackedKey, V>(map: &mut FxMap<K, V>, key: K, value: V) -> (result: Option<V>)
    ensures
        final(map)@ == old(map)@.insert(key, value),
        match result {
            Some(previous) => old(map)@.contains_key(key) && previous == old(map)@[key],
            None => !old(map)@.contains_key(key),
        },
{
    map.insert(key, value)
}

/// `FxHashMap::remove`: takes the key's entry out, and returns its value.
#[verifier::external_body]
pub(crate) fn map_remove<K: PackedKey, V>(map: &mut FxMap<K, V>, key: K) -> (result: Option<V>)
    ensures
        final(map)@ == old(map)@.remove(key),
        match result {
            Some(previous) => old(map)@.contains_key(key) && previous == old(map)@[key],
            None => !old(map)@.contains_key(key),
        },
{
    map.remove(&key)
}

/// `FxHashMap::keys`: every key once. The order is left open.
#[verifier::external_body]
pub(crate) fn map_keys<K: PackedKey, V>(map: &FxMap<K, V>) -> (result: Vec<K>)
    ensures
        result@.no_duplicates(),
        forall|key: K| #[trigger] result@.contains(key) <==> map@.contains_key(key),
{
    map.keys().copied().collect()
}

/// `FxHashSet::default`: a set without elements.
#[verifier::external_body]
pub(crate) fn set_new<K: PackedKey>() -> (result: FxSet<K>)
    ensures
        result@ == Set::<K>::empty(),
{
    HashSet::default()
}

/// `FxHashSet::is_empty`: whether the set has no elements.
#[verifier::external_body]
pub(crate) fn set_is_empty<K: PackedKey>(keys: &FxSet<K>) -> (result: bool)
    ensures
        result == (keys@ == Set::<K>::empty()),
{
    keys.is_empty()
}

/// `FxHashSet::contains`: whether the key is an element.
#[verifier::external_body]
pub(crate) fn set_contains<K: PackedKey>(keys: &FxSet<K>, key: K) -> (result: bool)
    ensures
        result == keys@.contains(key),
{
    keys.contains(&key)
}

/// `FxHashSet::insert`: makes the key an element, and returns whether it was
/// none before.
#[verifier::external_body]
pub(crate) fn set_insert<K: PackedKey>(keys: &mut FxSet<K>, key: K) -> (result: bool)
    ensures
        final(keys)@ == old(keys)@.insert(key),
        result == !old(keys)@.contains(key),
{
    keys.insert(key)
}

/// `FxHashSet::remove`: takes the key out, and returns whether it was an
/// element before.
#[verifier::external_body]
pub(crate) fn set_remove<K: PackedKey>(keys: &mut FxSet<K>, key: K) -> (result: bool)
    ensures
        final(keys)@ == old(keys)@.remove(key),
        result == old(keys)@.contains(key),
{
    keys.remove(&key)
}

/// `FxHashSet::iter`: every element once. The order is left open.
#[verifier::external_body]
pub(crate) fn set_items<K: PackedKey>(keys: &FxSet<K>) -> (result: Vec<K>)
    ensures
        result@.no_duplicates(),
        forall|key: K| #[trigger] result@.contains(key) <==> keys@.contains(key),
{
    keys.iter().copied().collect()
}

} // verus!
