//! The tables of the material registry: bevy's hash map, keyed by the name
//! of a material.
//!
//! Verus does not look into the hash map. What each call does to a table
//! is stated here and trusted; the registry is proved against it. A name
//! stands for its characters: two strings with the same characters are
//! the same key.

use bevy::utils::HashMap;
use vstd::prelude::*;

verus! {

/// One material handle by name, in a `bevy::utils::HashMap`.
#[verifier::external_body]
pub struct HandleTable {
    map: HashMap<String, u64>,
}

/// A list of material handles by name, in a `bevy::utils::HashMap`.
#[verifier::external_body]
pub struct HandleListTable {
    map: HashMap<String, Vec<u64>>,
}

/// What a table of handles holds.
pub uninterp spec fn handle_entries(table: HandleTable) -> Map<Seq<char>, u64>;

/// What a table of lists of handles holds.
pub uninterp spec fn handle_list_entries(table: HandleListTable) -> Map<Seq<char>, Seq<u64>>;

/// The characters of each name of a list.
pub open spec fn names_of(keys: Seq<String>) -> Seq<Seq<char>> {
    Seq::new(keys.len(), |i: int| keys[i]@)
}

/// `HashMap::new`. Trusted: the new map holds nothing.
#[verifier::external_body]
pub(crate) fn handle_table_new() -> (table: HandleTable)
    ensures
        handle_entries(table).dom() == Set::<Seq<char>>::empty(),
{
    HandleTable { map: HashMap::new() }
}

/// `HashMap::insert`. Trusted: afterwards `name` leads to `handle`,
/// whether or not the name was there before, and every other name leads
/// where it led.
#[verifier::external_body]
pub(crate) fn handle_table_insert(table: &mut HandleTable, name: String, handle: u64)
    ensures
        handle_entries(*final(table)) == handle_entries(*old(table)).insert(name@, handle),
{
    table.map.insert(name, handle);
}

/// `HashMap::get`, the value copied. Trusted: the handle that `name`
/// leads to, or `None` if the map does not hold the name.
#[verifier::external_body]
pub(crate) fn handle_table_get(table: &HandleTable, name: &str) -> (found: Option<u64>)
    ensures
        found == if handle_entries(*table).dom().contains(name@) {
            Some(handle_entries(*table)[name@])
        } else {
            None
        },
{
    table.map.get(name).copied()
}

/// `HashMap::contains_key`. Trusted: whether the map holds the name.
#[verifier::external_body]
pub(crate) fn handle_table_contains(table: &HandleTable, name: &str) -> (held: bool)
    ensures
        held == handle_entries(*table).dom().contains(name@),
{
    table.map.contains_key(name)
}

/// `HashMap::new`. Trusted: the new map holds nothing.
#[verifier::external_body]
pub(crate) fn list_table_new() -> (table: HandleListTable)
    ensures
        handle_list_entries(table).dom() == Set::<Seq<char>>::empty(),
{
    HandleListTable { map: HashMap::new() }
}

/// `HashMap::insert`. Trusted: afterwards `name` leads to `list`, whether
/// or not the name was there before, and every other name leads where it
/// led.
#[verifier::external_body]
pub(crate) fn list_table_insert(table: &mut HandleListTable, name: String, list: Vec<u64>)
    ensures
        handle_list_entries(*final(table)) == handle_list_entries(*old(table)).insert(
            name@,
            list@,
        ),
{
    table.map.insert(name, list);
}

/// `HashMap::get`. Trusted: the list that `name` leads to, or `None` if
/// the map does not hold the name.
#[verifier::external_body]
pub(crate) fn list_table_get<'a>(table: &'a HandleListTable, name: &str) -> (found: Option<
    &'a Vec<u64>,
>)
    ensures
        match found {
            Some(list) => handle_list_entries(*table).dom().contains(name@) && list@
                == handle_list_entries(*table)[name@],
            None => !handle_list_entries(*table).dom().contains(name@),
        },
{
    table.map.get(name)
}

/// `HashMap::get_mut`. Trusted: a reference to the list that `name` leads
/// to, or `None` if the map does not hold the name. What is written
/// through the reference is what the name leads to afterwards; nothing
/// else in the map changes.
#[verifier::external_body]
pub(crate) fn list_table_get_mut<'a>(table: &'a mut HandleListTable, name: &str) -> (found: Option<
    &'a mut Vec<u64>,
>)
    ensures
        match found {
            Some(list) => {
                &&& handle_list_entries(*old(table)).dom().contains(name@)
                &&& list@ == handle_list_entries(*old(table))[name@]
                &&& handle_list_entries(*final(table)) == handle_list_entries(*old(table)).insert(
                    name@,
                    final(list)@,
                )
            },
            None => {
                &&& !handle_list_entries(*old(table)).dom().contains(name@)
                &&& handle_list_entries(*final(table)) == handle_list_entries(*old(table))
            },
        },
{
    table.map.get_mut(name)
}

/// `HashMap::remove`. Trusted: the name is gone afterwards and every other
/// name leads where it led; the result is the list that the name led to,
/// or `None` if the map did not hold it.
#[verifier::external_body]
pub(crate) fn list_table_remove(table: &mut HandleListTable, name: &str) -> (taken: Option<
    Vec<u64>,
>)
    ensures
        handle_list_entries(*final(table)) == handle_list_entries(*old(table)).remove(name@),
        match taken {
            Some(list) => handle_list_entries(*old(table)).dom().contains(name@) && list@
                == handle_list_entries(*old(table))[name@],
            None => !handle_list_entries(*old(table)).dom().contains(name@),
        },
{
    table.map.remove(name)
}

/// `HashMap::keys`, cloned into a vector. Trusted: every name of the map
/// comes once and nothing else comes; the order is left open.
#[verifier::external_body]
pub(crate) fn list_table_keys(table: &HandleListTable) -> (keys: Vec<String>)
    ensures
        names_of(keys@).no_duplicates(),
        names_of(keys@).to_set() == handle_list_entries(*table).dom(),
{
    table.map.keys().cloned().collect()
}

} // verus!
