//! The engine's hash map, as far as the library uses it: keyed by a 32-bit
//! index, holding an index that the library issued.

use vstd::prelude::*;
use bevy::platform::collections::HashMap;
use bevy::platform::hash::FixedHasher;

verus! {

/// `bevy::platform::collections::HashMap`, opaque to the verifier.
#[verifier::external_type_specification]
#[verifier::external_body]
#[verifier::reject_recursive_types(K)]
#[verifier::reject_recursive_types(V)]
#[verifier::reject_recursive_types(S)]
pub struct ExHashMap<K, V, S>(HashMap<K, V, S>);

/// `bevy::platform::hash::FixedHasher`, the map's default hasher.
#[verifier::external_type_specification]
#[verifier::external_body]
pub struct ExFixedHasher(FixedHasher);

/// The key-value pairs that a table holds.
pub uninterp spec fn table_entries(table: HashMap<u32, usize>) -> Map<u32, usize>;

/// `HashMap::new`: a table without entries.
#[verifier::external_body]
pub(crate) fn table_new() -> (table: HashMap<u32, usize>)
    ensures
        table_entries(table) =~= Map::empty(),
{
    HashMap::new()
}

/// `HashMap::insert`: afterwards `key` maps to `value`, whether or not it
/// was present before, and every other key is as it was.
#[verifier::external_body]
pub(crate) fn table_insert(table: &mut HashMap<u32, usize>, key: u32, value: usize)
    ensures
        table_entries(*final(table)) == table_entries(*old(table)).insert(key, value),
{
    table.insert(key, value);
}

/// `HashMap::get`: the value stored under `key`, if the table has the key.
#[verifier::external_body]
pub(crate) fn table_get(table: &HashMap<u32, usize>, key: u32) -> (value: Option<usize>)
    ensures
        value == if table_entries(*table).contains_key(key) {
            Some(table_entries(*table)[key])
        } else {
            None
        },
{
    table.get(&key).copied()
}

/// `HashMap::iter`: every entry of the table exactly once, in the order in
/// which the table happens to be walked.
#[verifier::external_body]
pub(crate) fn table_pairs(table: &HashMap<u32, usize>) -> (pairs: Vec<(u32, usize)>)
    ensures
        pairs@.no_duplicates(),
        forall|p: (u32, usize)|
            pairs@.contains(p) <==> (table_entries(*table).contains_key(p.0) && table_entries(
                *table,
            )[p.0] == p.1),
{
    table.iter().map(|(key, value)| (*key, *value)).collect()
}

} // verus!
