//! The tables of the registry: bevy's hash map, keyed by asset id.
//!
//! Verus does not look into the hash map. What each call does to a table
//! is stated here and trusted; the registry is proved against it.

use crate::postfab::PostFab;
use crate::prefab::Prefab;
use bevy::utils::HashMap;
use vstd::prelude::*;

verus! {

/// Postfabs by the id of their asset, in a `bevy::utils::HashMap`.
#[verifier::external_body]
pub struct PostfabTable {
    map: HashMap<u64, PostFab>,
}

/// Prefabs by the id of their asset, in a `bevy::utils::HashMap`.
#[verifier::external_body]
pub struct PrefabTable {
    map: HashMap<u64, Prefab>,
}

/// What a table of postfabs holds.
pub uninterp spec fn postfab_entries(table: PostfabTable) -> Map<u64, PostFab>;

/// What a table of prefabs holds.
pub uninterp spec fn prefab_entries(table: PrefabTable) -> Map<u64, Prefab>;

/// `HashMap::new`. Trusted: the new map holds nothing.
#[verifier::external_body]
pub(crate) fn postfab_table_new() -> (table: PostfabTable)
    ensures
        postfab_entries(table).dom() == Set::<u64>::empty(),
{
    PostfabTable { map: HashMap::new() }
}

/// `HashMap::insert`. Trusted: afterwards `key` leads to `fab`, whether or
/// not the key was there before, and every other key leads where it led.
#[verifier::external_body]
pub(crate) fn postfab_table_insert(table: &mut PostfabTable, key: u64, fab: PostFab)
    ensures
        postfab_entries(*final(table)) == postfab_entries(*old(table)).insert(key, fab),
{
    table.map.insert(key, fab);
}

/// `HashMap::get`. Trusted: the value that `key` leads to, or `None` if
/// the map does not hold the key.
#[verifier::external_body]
pub(crate) fn postfab_table_get<'a>(table: &'a PostfabTable, key: u64) -> (found: Option<
    &'a PostFab,
>)
    ensures
        found == if postfab_entries(*table).dom().contains(key) {
            Some(&postfab_entries(*table)[key])
        } else {
            None
        },
{
    table.map.get(&key)
}

/// `HashMap::remove`. Trusted: the key is gone afterwards and every other
/// key leads where it led; the result is the value that the key led to,
/// or `None` if the map did not hold it.
#[verifier::external_body]
pub(crate) fn postfab_table_remove(table: &mut PostfabTable, key: u64) -> (taken: Option<PostFab>)
    ensures
        postfab_entries(*final(table)) == postfab_entries(*old(table)).remove(key),
        taken == if postfab_entries(*old(table)).dom().contains(key) {
            Some(postfab_entries(*old(table))[key])
        } else {
            None
        },
{
    table.map.remove(&key)
}

/// `HashMap::keys`, copied into a vector. Trusted: every key of the map
/// comes once and nothing else comes; the order is left open.
#[verifier::external_body]
pub(crate) fn postfab_table_keys(table: &PostfabTable) -> (keys: Vec<u64>)
    ensures
        keys@.no_duplicates(),
        keys@.to_set() == postfab_entries(*table).dom(),
{
    table.map.keys().copied().collect()
}

/// `HashMap::new`. Trusted: the new map holds nothing.
#[verifier::external_body]
pub(crate) fn prefab_table_new() -> (table: PrefabTable)
    ensures
        prefab_entries(table).dom() == Set::<u64>::empty(),
{
    PrefabTable { map: HashMap::new() }
}

/// `HashMap::insert`. Trusted: afterwards `key` leads to `fab`, whether or
/// not the key was there before, and every other key leads where it led.
#[verifier::external_body]
pub(crate) fn prefab_table_insert(table: &mut PrefabTable, key: u64, fab: Prefab)
    ensures
        prefab_entries(*final(table)) == prefab_entries(*old(table)).insert(key, fab),
{
    table.map.insert(key, fab);
}

/// `HashMap::get`. Trusted: the value that `key` leads to, or `None` if
/// the map does not hold the key.
#[verifier::external_body]
pub(crate) fn prefab_table_get<'a>(table: &'a PrefabTable, key: u64) -> (found: Option<&'a Prefab>)
    ensures
        found == if prefab_entries(*table).dom().contains(key) {
            Some(&prefab_entries(*table)[key])
        } else {
            None
        },
{
    table.map.get(&key)
}

/// `HashMap::remove`. Trusted: the key is gone afterwards and every other
/// key leads where it led; the result is the value that the key led to,
/// or `None` if the map did not hold it.
#[verifier::external_body]
pub(crate) fn prefab_table_remove(table: &mut PrefabTable, key: u64) -> (taken: Option<Prefab>)
    ensures
        prefab_entries(*final(table)) == prefab_entries(*old(table)).remove(key),
        taken == if prefab_entries(*old(table)).dom().contains(key) {
            Some(prefab_entries(*old(table))[key])
        } else {
            None
        },
{
    table.map.remove(&key)
}

/// `HashMap::keys`, copied into a vector. Trusted: every key of the map
/// comes once and nothing else comes; the order is left open.
#[verifier::external_body]
pub(crate) fn prefab_table_keys(table: &PrefabTable) -> (keys: Vec<u64>)
    ensures
        keys@.no_duplicates(),
        keys@.to_set() == prefab_entries(*table).dom(),
{
    table.map.keys().copied().collect()
}

/// `HashMap::get_mut`. Trusted: a reference to the value that `key` leads
/// to, or `None` if the map does not hold the key. What is written
/// through the reference is what the key leads to afterwards; nothing
/// else in the map changes.
#[verifier::external_body]
pub(crate) fn prefab_table_get_mut<'a>(table: &'a mut PrefabTable, key: u64) -> (found: Option<
    &'a mut Prefab,
>)
    ensures
        match found {
            Some(fab) => {
                &&& prefab_entries(*old(table)).dom().contains(key)
                &&& *fab == prefab_entries(*old(table))[key]
                &&& prefab_entries(*final(table)) == prefab_entries(*old(table)).insert(
                    key,
                    *final(fab),
                )
            },
            None => {
                &&& !prefab_entries(*old(table)).dom().contains(key)
                &&& prefab_entries(*final(table)) == prefab_entries(*old(table))
            },
        },
{
    table.map.get_mut(&key)
}

} // verus!
