//! The per-block status map of the auction engine.
//!
//! Candidate blocks are keyed by their 32-byte hash in a concurrent map of
//! the dashmap crate, held behind trusted wrappers whose contracts speak of
//! the abstract contents named by [`dm_contents`].

use vstd::prelude::*;
use crate::types::Status;
use std::collections::hash_map::RandomState;

verus! {

#[verifier::external_type_specification]
#[verifier::external_body]
#[verifier::reject_recursive_types(K)]
#[verifier::reject_recursive_types(V)]
#[verifier::reject_recursive_types(S)]
pub struct ExDashMap<K, V, S>(dashmap::DashMap<K, V, S>);

/// The concrete map the engine keeps its per-block statuses in.
pub type StatusMap = dashmap::DashMap<Vec<u8>, Status, RandomState>;

/// What the status map holds: the recorded status of each block hash seen so
/// far in the current slot.
pub uninterp spec fn dm_contents(m: StatusMap) -> Map<Seq<u8>, Status>;

/// Relies on DashMap::new: creates an empty map.
#[verifier::external_body]
pub fn dm_new() -> (m: StatusMap)
    ensures
        dm_contents(m) == (Map::<Seq<u8>, Status>::empty()),
{
    dashmap::DashMap::new()
}

/// Relies on DashMap::contains_key: membership in the map's key set.
#[verifier::external_body]
pub fn dm_contains_key(m: &StatusMap, key: &Vec<u8>) -> (r: bool)
    ensures
        r == dm_contents(*m).dom().contains(key@),
{
    m.contains_key(key)
}

/// Relies on DashMap::insert: maps the key to the new value and returns the
/// value it held before, if any.
#[verifier::external_body]
pub fn dm_insert(
    m: &mut StatusMap,
    key: Vec<u8>,
    value: Status,
) -> (r: Option<Status>)
    ensures
        dm_contents(*final(m)) == dm_contents(*old(m)).insert(key@, value),
        r == (if dm_contents(*old(m)).dom().contains(key@) {
            Some(dm_contents(*old(m))[key@])
        } else {
            Option::<Status>::None
        }),
{
    m.insert(key, value)
}

/// Relies on DashMap::get: the value the key maps to, if any.
#[verifier::external_body]
pub fn dm_get(m: &StatusMap, key: &Vec<u8>) -> (r: Option<Status>)
    ensures
        r == (if dm_contents(*m).dom().contains(key@) {
            Some(dm_contents(*m)[key@])
        } else {
            Option::<Status>::None
        }),
{
    m.get(key).map(|v| *v)
}

} // verus!
