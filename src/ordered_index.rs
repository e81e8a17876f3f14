//! The outside hash-indexed collections this library builds on, and what it
//! relies on about them.

use indexmap::IndexMap;
use indexmap::IndexSet;
use vstd::prelude::*;

verus! {

#[verifier::external_type_specification]
#[verifier::external_body]
#[verifier::reject_recursive_types(T)]
#[verifier::reject_recursive_types(S)]
pub struct ExIndexSet<T, S>(IndexSet<T, S>);

#[verifier::external_type_specification]
#[verifier::external_body]
#[verifier::reject_recursive_types(K)]
#[verifier::reject_recursive_types(V)]
#[verifier::reject_recursive_types(S)]
pub struct ExIndexMap<K, V, S>(IndexMap<K, V, S>);

/// The items of an index set, in the order in which they were first inserted.
pub uninterp spec fn index_set_items(s: IndexSet<usize>) -> Seq<usize>;

/// Relies on `IndexSet::new`: a new set is empty.
#[verifier::external_body]
pub(crate) fn index_set_new() -> (r: IndexSet<usize>)
    ensures
        index_set_items(r) == Seq::<usize>::empty(),
{
    IndexSet::new()
}

/// Relies on `IndexSet::len`: the number of items held.
#[verifier::external_body]
pub(crate) fn index_set_len(s: &IndexSet<usize>) -> (r: usize)
    ensures
        r == index_set_items(*s).len(),
{
    s.len()
}

/// Relies on `IndexSet::insert_full`: an item already present keeps its
/// place and its index is returned with `false`; a new item is appended and
/// its index is returned with `true`.
#[verifier::external_body]
pub(crate) fn index_set_insert_full(s: &mut IndexSet<usize>, value: usize) -> (r: (usize, bool))
    ensures
        index_set_items(*old(s)).contains(value) ==> {
            &&& index_set_items(*final(s)) == index_set_items(*old(s))
            &&& r.0 < index_set_items(*old(s)).len()
            &&& index_set_items(*old(s))[r.0 as int] == value
            &&& !r.1
        },
        !index_set_items(*old(s)).contains(value) ==> {
            &&& index_set_items(*final(s)) == index_set_items(*old(s)).push(value)
            &&& r.0 == index_set_items(*old(s)).len()
            &&& r.1
        },
{
    s.insert_full(value)
}

/// Relies on `IndexSet::get_index_of`: the position of an item, if present.
#[verifier::external_body]
pub(crate) fn index_set_get_index_of(s: &IndexSet<usize>, value: &usize) -> (r: Option<usize>)
    ensures
        match r {
            Some(i) => i < index_set_items(*s).len() && index_set_items(*s)[i as int] == *value,
            None => !index_set_items(*s).contains(*value),
        },
{
    s.get_index_of(value)
}

/// Relies on `IndexSet::get_index`: the item at a position, if in bounds.
#[verifier::external_body]
pub(crate) fn index_set_get_index(s: &IndexSet<usize>, index: usize) -> (r: Option<&usize>)
    ensures
        index < index_set_items(*s).len() ==> r == Some(&index_set_items(*s)[index as int]),
        index >= index_set_items(*s).len() ==> r.is_none(),
{
    s.get_index(index)
}

/// Relies on `IndexMap::capacity`: how many entries the map has room for.
/// That depends on its allocations, so nothing is stated of it.
#[verifier::external_body]
pub(crate) fn index_map_capacity<V>(m: &IndexMap<usize, V>) -> (r: usize) {
    m.capacity()
}

/// Relies on `IndexMap::into_iter`: it yields every entry once, and a map
/// holds each key at most once.
#[verifier::external_body]
pub(crate) fn index_map_into_entries<V>(m: IndexMap<usize, V>) -> (r: Vec<(usize, V)>)
    ensures
        forall|i: int, j: int| 0 <= i < j < r@.len() ==> r@[i].0 != r@[j].0,
{
    m.into_iter().collect()
}

} // verus!
