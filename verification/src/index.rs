//! The ordered table that holds the vertices.
//!
//! The table is an `indexmap::IndexMap` from the raw identity to the vertex.
//! Verus does not look inside it. What the rest of the crate knows about it is
//! stated here, over the sequence of its entries in their order, and is taken
//! on trust from the documentation of `indexmap`.
use crate::vertex::Vertex;
use indexmap::IndexMap;
use vstd::prelude::*;

verus! {

#[verifier::external_type_specification]
#[verifier::external_body]
#[verifier::reject_recursive_types(K)]
#[verifier::reject_recursive_types(V)]
#[verifier::reject_recursive_types(S)]
pub struct ExIndexMap<K, V, S>(IndexMap<K, V, S>);

/// The key-value pairs that a table holds, in the table's order.
pub uninterp spec fn entries(table: IndexMap<u64, Vertex>) -> Seq<(u64, Vertex)>;

/// Whether `key` is the key of one of `entries`.
pub open spec fn holds_key(entries: Seq<(u64, Vertex)>, key: u64) -> bool {
    exists|i: int| 0 <= i < entries.len() && (#[trigger] entries[i]).0 == key
}

/// `IndexMap::new`: a table without entries.
#[verifier::external_body]
pub(crate) fn table_new() -> (table: IndexMap<u64, Vertex>)
    ensures
        entries(table) == Seq::<(u64, Vertex)>::empty(),
{
    IndexMap::new()
}

/// `IndexMap::len`: the number of entries.
#[verifier::external_body]
pub(crate) fn table_len(table: &IndexMap<u64, Vertex>) -> (n: usize)
    ensures
        n == entries(*table).len(),
{
    table.len()
}

/// `IndexMap::get_index_of`: the position of the entry with key `key`, or
/// `None` where no entry has that key.
#[verifier::external_body]
pub(crate) fn table_position(table: &IndexMap<u64, Vertex>, key: u64) -> (at: Option<usize>)
    ensures
        match at {
            Some(i) => i < entries(*table).len() && entries(*table)[i as int].0 == key,
            None => !holds_key(entries(*table), key),
        },
{
    table.get_index_of(&key)
}

/// `IndexMap::get_index`: the entry at position `i`.
#[verifier::external_body]
pub(crate) fn table_entry(table: &IndexMap<u64, Vertex>, i: usize) -> (entry: (u64, &Vertex))
    requires
        i < entries(*table).len(),
    ensures
        entry.0 == entries(*table)[i as int].0,
        *entry.1 == entries(*table)[i as int].1,
{
    let (key, vertex) = table.get_index(i).unwrap();
    (*key, vertex)
}

/// `IndexMap::get_index_mut`: the value at position `i`, to be changed in
/// place. The key at that position and all other entries stay as they are.
#[verifier::external_body]
pub(crate) fn table_value_mut(table: &mut IndexMap<u64, Vertex>, i: usize) -> (vertex: &mut Vertex)
    requires
        i < entries(*old(table)).len(),
    ensures
        *vertex == entries(*old(table))[i as int].1,
        entries(*final(table)) == entries(*old(table)).update(
            i as int,
            (entries(*old(table))[i as int].0, *final(vertex)),
        ),
{
    table.get_index_mut(i).unwrap().1
}

/// `IndexMap::insert_full`: where an entry has key `key`, its value is
/// replaced and handed back with the entry's position; otherwise the pair
/// becomes the last entry.
#[verifier::external_body]
pub(crate) fn table_insert(table: &mut IndexMap<u64, Vertex>, key: u64, vertex: Vertex) -> (out: (
    usize,
    Option<Vertex>,
))
    ensures
        match out.1 {
            Some(previous) => {
                &&& out.0 < entries(*old(table)).len()
                &&& entries(*old(table))[out.0 as int] == (key, previous)
                &&& entries(*final(table)) == entries(*old(table)).update(
                    out.0 as int,
                    (key, vertex),
                )
            },
            None => {
                &&& !holds_key(entries(*old(table)), key)
                &&& out.0 == entries(*old(table)).len()
                &&& entries(*final(table)) == entries(*old(table)).push((key, vertex))
            },
        },
{
    table.insert_full(key, vertex)
}

/// `IndexMap::shift_remove_index`: takes the entry at position `i` out; the
/// entries behind it move up by one and keep their order.
#[verifier::external_body]
pub(crate) fn table_remove(table: &mut IndexMap<u64, Vertex>, i: usize) -> (entry: (u64, Vertex))
    requires
        i < entries(*old(table)).len(),
    ensures
        entry == entries(*old(table))[i as int],
        entries(*final(table)) == entries(*old(table)).remove(i as int),
{
    table.shift_remove_index(i).unwrap()
}

} // verus!
