//! Boundary to the `dashmap` crate: the shared-map counting strategy keeps
//! its counts in a `dashmap::DashMap<String, u64>`. The map's contents are
//! named by the uninterpreted function `dash_counts`; each wrapper states
//! what one `DashMap` operation does to those contents under exclusive
//! (`&mut`) access.

use vstd::prelude::*;

use crate::dict::entries_map;
use crate::dict::keys_of;

verus! {

#[verifier::external_type_specification]
#[verifier::external_body]
#[verifier::reject_recursive_types(K)]
#[verifier::reject_recursive_types(V)]
#[verifier::reject_recursive_types(S)]
pub struct ExDashMap<K, V, S>(dashmap::DashMap<K, V, S>);

/// The concrete shared-map type the counting strategy uses.
pub type CountsHandle = dashmap::DashMap<String, u64, std::collections::hash_map::RandomState>;

/// The counts held by a `DashMap<String, u64>`: its key texts mapped to
/// their values.
pub uninterp spec fn dash_counts(m: CountsHandle) -> Map<Seq<char>, u64>;

/// Relies on `dashmap::DashMap::new`: an empty map.
#[verifier::external_body]
pub fn dash_new() -> (r: CountsHandle)
    ensures
        forall|k: Seq<char>| !dash_counts(r).dom().contains(k),
{
    dashmap::DashMap::new()
}

/// Relies on `dashmap::DashMap::get`: the value at `key`, when present.
#[verifier::external_body]
pub fn dash_get(m: &CountsHandle, key: &String) -> (r: Option<u64>)
    ensures
        match r {
            Some(c) => dash_counts(*m).dom().contains(key@) && dash_counts(*m)[key@] == c,
            None => !dash_counts(*m).dom().contains(key@),
        },
{
    m.get(key).map(|v| *v)
}

/// Relies on `dashmap::DashMap::insert`: under exclusive access, stores
/// `v` at `key` and leaves every other key unchanged.
#[verifier::external_body]
pub fn dash_insert(m: &mut CountsHandle, key: String, v: u64)
    ensures
        dash_counts(*final(m)) == dash_counts(*old(m)).insert(key@, v),
{
    m.insert(key, v);
}

/// Relies on `dashmap::DashMap::iter` (with `Ref::key`/`Ref::value`): under
/// exclusive access, yields each entry exactly once, in unspecified order.
#[verifier::external_body]
pub fn dash_pairs(m: &CountsHandle) -> (r: Vec<(String, u64)>)
    ensures
        keys_of(r@).no_duplicates(),
        entries_map(r@) == dash_counts(*m),
{
    m.iter().map(|e| (e.key().clone(), *e.value())).collect()
}

} // verus!
