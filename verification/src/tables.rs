//! The device's tables, each a `dashmap::DashMap`.
//!
//! A table is reached through a mutable reference to it or not at all, so between two calls
//! nobody else changes what it holds.
use crate::refcount::ObjectRefState;
use dashmap::DashMap;
use vstd::prelude::*;

verus! {

/// The type `dashmap::DashMap`. Nothing of its inside is known; what a table holds is said
/// by the names below.
#[verifier::external_type_specification]
#[verifier::external_body]
#[verifier::reject_recursive_types(K)]
#[verifier::reject_recursive_types(V)]
#[verifier::reject_recursive_types(S)]
pub struct ExDashMap<K, V, S>(DashMap<K, V, S>);

/// A table from identities of local objects to the number of a slot.
pub type IdTable = DashMap<(u64, u64), u64>;

/// What a table of slots holds.
pub uninterp spec fn slots(table: IdTable) -> Map<(u64, u64), u64>;

/// Calls `dashmap::DashMap::new`: the table holds nothing.
#[verifier::external_body]
pub(crate) fn slots_new() -> (r: IdTable)
    ensures
        (slots(r) == Map::<(u64, u64), u64>::empty()),
{
    DashMap::new()
}

/// Calls `dashmap::DashMap::get` and copies the value out of the guard: the value under
/// `key`, if there is one. The guard is gone when the call returns.
#[verifier::external_body]
pub(crate) fn slots_get(table: &IdTable, key: (u64, u64)) -> (r: Option<u64>)
    ensures
        r == (if slots(*table).dom().contains(key) {
            Some(slots(*table)[key])
        } else {
            None
        }),
{
    match table.get(&key) {
        Some(guard) => Some(*guard),
        None => None,
    }
}

/// Calls `dashmap::DashMap::insert`: afterwards `value` stands under `key`, and everything
/// else is as it was. The value that stood there before is dropped.
#[verifier::external_body]
pub(crate) fn slots_insert(table: &mut IdTable, key: (u64, u64), value: u64)
    ensures
        slots(*final(table)) == slots(*old(table)).insert(key, value),
{
    table.insert(key, value);
}

/// Calls `dashmap::DashMap::remove`: afterwards nothing stands under `key`, and everything
/// else is as it was. The result says whether something stood there.
#[verifier::external_body]
pub(crate) fn slots_remove(table: &mut IdTable, key: (u64, u64)) -> (r: bool)
    ensures
        slots(*final(table)) == slots(*old(table)).remove(key),
        r == slots(*old(table)).dom().contains(key),
{
    table.remove(&key).is_some()
}

/// Calls `dashmap::DashMap::iter` and copies the keys out: each key once, in no particular
/// order. The guards are gone when the call returns.
#[verifier::external_body]
pub(crate) fn slots_keys(table: &IdTable) -> (r: Vec<(u64, u64)>)
    ensures
        r@.to_set() == slots(*table).dom(),
        r@.no_duplicates(),
{
    table.iter().map(|entry| *entry.key()).collect()
}

/// A table from identities of local objects to their reference counts.
pub type CountTable = DashMap<(u64, u64), ObjectRefState>;

/// What a table of reference counts holds.
pub uninterp spec fn counts(table: CountTable) -> Map<(u64, u64), ObjectRefState>;

/// Calls `dashmap::DashMap::new`: the table holds nothing.
#[verifier::external_body]
pub(crate) fn counts_new() -> (r: CountTable)
    ensures
        (counts(r) == Map::<(u64, u64), ObjectRefState>::empty()),
{
    DashMap::new()
}

/// Calls `dashmap::DashMap::get` and copies the value out of the guard: the value under
/// `key`, if there is one. The guard is gone when the call returns.
#[verifier::external_body]
pub(crate) fn counts_get(table: &CountTable, key: (u64, u64)) -> (r: Option<ObjectRefState>)
    ensures
        r == (if counts(*table).dom().contains(key) {
            Some(counts(*table)[key])
        } else {
            None
        }),
{
    match table.get(&key) {
        Some(guard) => Some(*guard),
        None => None,
    }
}

/// Calls `dashmap::DashMap::insert`: afterwards `value` stands under `key`, and everything
/// else is as it was. The value that stood there before is dropped.
#[verifier::external_body]
pub(crate) fn counts_insert(table: &mut CountTable, key: (u64, u64), value: ObjectRefState)
    ensures
        counts(*final(table)) == counts(*old(table)).insert(key, value),
{
    table.insert(key, value);
}

/// Calls `dashmap::DashMap::remove`: afterwards nothing stands under `key`, and everything
/// else is as it was. The result says whether something stood there.
#[verifier::external_body]
pub(crate) fn counts_remove(table: &mut CountTable, key: (u64, u64)) -> (r: bool)
    ensures
        counts(*final(table)) == counts(*old(table)).remove(key),
        r == counts(*old(table)).dom().contains(key),
{
    table.remove(&key).is_some()
}

/// A table from handles or cookies to two numbers.
pub type HandleTable = DashMap<u64, (u64, u64)>;

/// What a table of handles or cookies holds.
pub uninterp spec fn entries(table: HandleTable) -> Map<u64, (u64, u64)>;

/// Calls `dashmap::DashMap::new`: the table holds nothing.
#[verifier::external_body]
pub(crate) fn entries_new() -> (r: HandleTable)
    ensures
        (entries(r) == Map::<u64, (u64, u64)>::empty()),
{
    DashMap::new()
}

/// Calls `dashmap::DashMap::get` and copies the value out of the guard: the value under
/// `key`, if there is one. The guard is gone when the call returns.
#[verifier::external_body]
pub(crate) fn entries_get(table: &HandleTable, key: u64) -> (r: Option<(u64, u64)>)
    ensures
        r == (if entries(*table).dom().contains(key) {
            Some(entries(*table)[key])
        } else {
            None
        }),
{
    match table.get(&key) {
        Some(guard) => Some(*guard),
        None => None,
    }
}

/// Calls `dashmap::DashMap::insert`: afterwards `value` stands under `key`, and everything
/// else is as it was. The value that stood there before is dropped.
#[verifier::external_body]
pub(crate) fn entries_insert(table: &mut HandleTable, key: u64, value: (u64, u64))
    ensures
        entries(*final(table)) == entries(*old(table)).insert(key, value),
{
    table.insert(key, value);
}

/// Calls `dashmap::DashMap::remove`: afterwards nothing stands under `key`, and everything
/// else is as it was. The result says whether something stood there.
#[verifier::external_body]
pub(crate) fn entries_remove(table: &mut HandleTable, key: u64) -> (r: bool)
    ensures
        entries(*final(table)) == entries(*old(table)).remove(key),
        r == entries(*old(table)).dom().contains(key),
{
    table.remove(&key).is_some()
}

/// Calls `dashmap::DashMap::iter` and copies the keys out: each key once, in no particular
/// order. The guards are gone when the call returns.
#[verifier::external_body]
pub(crate) fn entries_keys(table: &HandleTable) -> (r: Vec<u64>)
    ensures
        r@.to_set() == entries(*table).dom(),
        r@.no_duplicates(),
{
    table.iter().map(|entry| *entry.key()).collect()
}

} // verus!
