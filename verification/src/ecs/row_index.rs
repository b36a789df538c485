//! The row index: for every entity that sits in an archetype, the row it
//! occupies there. Kept in an `ahash::AHashMap` keyed by the packed entity.

use ahash::AHashMap;
use vstd::prelude::*;

verus! {

/// `ahash::AHashMap`, a `std` hash map with a faster hasher.
#[verifier::external_type_specification]
#[verifier::external_body]
#[verifier::reject_recursive_types(K)]
#[verifier::reject_recursive_types(V)]
#[verifier::reject_recursive_types(S)]
pub struct ExAHashMap<K, V, S>(AHashMap<K, V, S>);

/// `ahash::RandomState`, the hasher state of an `AHashMap`.
#[verifier::external_type_specification]
#[verifier::external_body]
pub struct ExRandomState(ahash::RandomState);

/// What a row index holds: packed entity to row.
pub uninterp spec fn row_entries(index: AHashMap<u64, usize>) -> Map<u64, usize>;

/// `AHashMap::new`: an index without entries.
#[verifier::external_body]
pub(crate) fn rows_new() -> (index: AHashMap<u64, usize>)
    ensures
        row_entries(index) =~= Map::empty(),
{
    AHashMap::new()
}

/// `AHashMap::get`, with the row copied out: the row stored under `key`, if
/// there is one.
#[verifier::external_body]
pub(crate) fn rows_get(index: &AHashMap<u64, usize>, key: u64) -> (row: Option<usize>)
    ensures
        row == (if row_entries(*index).contains_key(key) {
            Some(row_entries(*index)[key])
        } else {
            None
        }),
{
    index.get(&key).copied()
}

/// `AHashMap::insert`: stores `row` under `key`, replacing what was there.
#[verifier::external_body]
pub(crate) fn rows_insert(index: &mut AHashMap<u64, usize>, key: u64, row: usize)
    ensures
        row_entries(*final(index)) == row_entries(*old(index)).insert(key, row),
{
    index.insert(key, row);
}

/// `AHashMap::remove`: drops the entry under `key`, if there is one.
#[verifier::external_body]
pub(crate) fn rows_remove(index: &mut AHashMap<u64, usize>, key: u64)
    ensures
        row_entries(*final(index)) == row_entries(*old(index)).remove(key),
{
    index.remove(&key);
}

} // verus!
