//! Lookup tables from a minute (or a minute and a location) to a position in
//! a list, held in a concurrent map.
use dashmap::DashMap;
use vstd::prelude::*;

verus! {

#[verifier::external_type_specification]
#[verifier::external_body]
#[verifier::reject_recursive_types(K)]
#[verifier::reject_recursive_types(V)]
#[verifier::reject_recursive_types(S)]
pub struct ExDashMap<K, V, S>(DashMap<K, V, S>);

/// The entries of a lookup table.
pub uninterp spec fn entries(m: DashMap<i64, usize>) -> Map<i64, usize>;

/// The table with no entry.
pub open spec fn no_entries() -> Map<i64, usize> {
    Map::empty()
}

/// Relies on `DashMap::new`: a new map holds no entry.
#[verifier::external_body]
pub(crate) fn new_table() -> (r: DashMap<i64, usize>)
    ensures
        entries(r) == no_entries(),
{
    DashMap::new()
}

/// Relies on `DashMap::insert`: the key maps to the value afterwards, other
/// keys keep theirs.
#[verifier::external_body]
pub(crate) fn table_insert(m: &mut DashMap<i64, usize>, k: i64, v: usize)
    ensures
        entries(*final(m)) == entries(*old(m)).insert(k, v),
{
    m.insert(k, v);
}

/// Relies on `DashMap::get`: the value of the key, if the map holds it.
#[verifier::external_body]
pub(crate) fn table_get(m: &DashMap<i64, usize>, k: i64) -> (r: Option<usize>)
    ensures
        match r {
            Some(v) => entries(*m).contains_key(k) && entries(*m)[k] == v,
            None => !entries(*m).contains_key(k),
        },
{
    m.get(&k).map(|e| *e.value())
}

} // verus!
