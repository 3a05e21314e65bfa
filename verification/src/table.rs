//! The lookup table behind a set: an `indexmap::IndexMap` from type tokens
//! to positions in the set's entry list, held behind trusted declarations.

use vstd::prelude::*;
use indexmap::IndexMap;
use indexmap::TryReserveError;

verus! {

#[verifier::external_type_specification]
#[verifier::external_body]
#[verifier::reject_recursive_types(K)]
#[verifier::reject_recursive_types(V)]
#[verifier::reject_recursive_types(S)]
pub struct ExIndexMap<K, V, S>(IndexMap<K, V, S>);

#[verifier::external_type_specification]
#[verifier::external_body]
pub struct ExTryReserveError(TryReserveError);

/// What a table holds: the tokens it knows, each mapped to a position.
pub uninterp spec fn table_view(m: IndexMap<u64, usize>) -> Map<u64, usize>;

/// Relies on indexmap::IndexMap::new: creates an empty map.
#[verifier::external_body]
pub(crate) fn table_new() -> (m: IndexMap<u64, usize>)
    ensures
        forall|k: u64| !table_view(m).contains_key(k),
{
    IndexMap::new()
}

/// Relies on indexmap::IndexMap::with_capacity: creates an empty map; the
/// requested capacity is only a hint.
#[verifier::external_body]
pub(crate) fn table_with_capacity(n: usize) -> (m: IndexMap<u64, usize>)
    ensures
        forall|k: u64| !table_view(m).contains_key(k),
{
    IndexMap::with_capacity(n)
}

/// Relies on indexmap::IndexMap::capacity: a lower bound on how many pairs
/// fit without reallocating; no more is promised of it.
#[verifier::external_body]
pub(crate) fn table_capacity(m: &IndexMap<u64, usize>) -> usize {
    m.capacity()
}

/// Relies on indexmap::IndexMap::insert: maps the key to the value and
/// returns the displaced value if the key was already present; a present
/// key keeps its place in the iteration order.
#[verifier::external_body]
pub(crate) fn table_insert(m: &mut IndexMap<u64, usize>, key: u64, value: usize) -> (displaced: Option<usize>)
    ensures
        table_view(*final(m)) == table_view(*old(m)).insert(key, value),
        match displaced {
            Some(v) => table_view(*old(m)).contains_key(key) && v == table_view(*old(m))[key],
            None => !table_view(*old(m)).contains_key(key),
        },
{
    m.insert(key, value)
}

/// Relies on indexmap::IndexMap::get: returns the value stored for the key,
/// if the key is present.
#[verifier::external_body]
pub(crate) fn table_get(m: &IndexMap<u64, usize>, key: u64) -> (r: Option<usize>)
    ensures
        match r {
            Some(i) => table_view(*m).contains_key(key) && i == table_view(*m)[key],
            None => !table_view(*m).contains_key(key),
        },
{
    m.get(&key).copied()
}

/// Relies on indexmap::IndexMap::clear: removes every pair, keeping the
/// allocated capacity.
#[verifier::external_body]
pub(crate) fn table_clear(m: &mut IndexMap<u64, usize>)
    ensures
        forall|k: u64| !table_view(*final(m)).contains_key(k),
{
    m.clear()
}

/// Relies on indexmap::IndexMap::reserve: makes room for more pairs and
/// leaves the contents as they were.
#[verifier::external_body]
pub(crate) fn table_reserve(m: &mut IndexMap<u64, usize>, additional: usize)
    requires
        table_view(*old(m)).len() + additional <= usize::MAX,
    ensures
        table_view(*final(m)) == table_view(*old(m)),
{
    m.reserve(additional)
}

/// Relies on indexmap::IndexMap::try_reserve: tries to make room for more
/// pairs; whether it succeeds or reports an allocation failure, the
/// contents are left as they were.
#[verifier::external_body]
pub(crate) fn table_try_reserve(m: &mut IndexMap<u64, usize>, additional: usize) -> (r: Result<(), TryReserveError>)
    ensures
        table_view(*final(m)) == table_view(*old(m)),
{
    m.try_reserve(additional)
}

/// Relies on indexmap::IndexMap::shrink_to_fit: gives allocated room back
/// and leaves the contents as they were.
#[verifier::external_body]
pub(crate) fn table_shrink_to_fit(m: &mut IndexMap<u64, usize>)
    ensures
        table_view(*final(m)) == table_view(*old(m)),
{
    m.shrink_to_fit()
}

/// Relies on indexmap::IndexMap::shrink_to: gives allocated room back down
/// to the given bound and leaves the contents as they were.
#[verifier::external_body]
pub(crate) fn table_shrink_to(m: &mut IndexMap<u64, usize>, min_capacity: usize)
    ensures
        table_view(*final(m)) == table_view(*old(m)),
{
    m.shrink_to(min_capacity)
}

} // verus!
