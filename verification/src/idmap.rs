use vstd::prelude::*;

verus! {

/// `indexmap::IndexMap` keeps its entries in insertion order. The game holds
/// one map from a user's id to the index of that user's slot, so a
/// participant is found without scanning while insertion order stays the
/// authority on numbering.
#[verifier::external_type_specification]
#[verifier::external_body]
#[verifier::reject_recursive_types(K)]
#[verifier::reject_recursive_types(V)]
#[verifier::reject_recursive_types(S)]
pub struct ExIndexMap<K, V, S>(indexmap::IndexMap<K, V, S>);

/// The map the game uses: user id to slot index, hashed as std hashes it.
pub type IdIndex = indexmap::IndexMap<i64, usize, std::collections::hash_map::RandomState>;

/// The entries of the map, as (key, value) pairs in insertion order.
pub uninterp spec fn id_entries(m: IdIndex) -> Seq<(i64, usize)>;

/// Relies on indexmap::IndexMap::new: makes a new, empty map.
#[verifier::external_body]
pub(crate) fn id_index_new() -> (m: IdIndex)
    ensures
        id_entries(m) == Seq::<(i64, usize)>::empty(),
{
    indexmap::IndexMap::new()
}

/// Relies on indexmap::IndexMap::get: returns the value stored for the key if
/// an equal key is present, else None.
#[verifier::external_body]
pub(crate) fn id_index_get(m: &IdIndex, key: i64) -> (r: Option<usize>)
    ensures
        match r {
            Some(v) => exists|i: int|
                0 <= i < id_entries(*m).len() && id_entries(*m)[i] == (key, v),
            None => forall|i: int|
                0 <= i < id_entries(*m).len() ==> (#[trigger] id_entries(*m)[i]).0 != key,
        },
{
    m.get(&key).copied()
}

/// Relies on indexmap::IndexMap::insert: a key that is not yet present is
/// inserted last in the order, together with its value.
#[verifier::external_body]
pub(crate) fn id_index_insert(m: &mut IdIndex, key: i64, value: usize)
    requires
        forall|i: int|
            0 <= i < id_entries(*old(m)).len() ==> (#[trigger] id_entries(*old(m))[i]).0 != key,
    ensures
        id_entries(*final(m)) == id_entries(*old(m)).push((key, value)),
{
    m.insert(key, value);
}

} // verus!
