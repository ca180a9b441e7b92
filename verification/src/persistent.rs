//! The persistent name table that environments are built on.
//!
//! Environments are cloned whenever a closure is made or applied, so the table
//! of names is kept in `im::HashMap`, whose clones share structure. The items
//! of this file are the only ones that touch it: their contracts are taken on
//! trust from the crate's source and are not proved.

use vstd::prelude::*;

verus! {

/// Makes `im::HashMap` known to the verifier as an opaque type.
#[verifier::external_type_specification]
#[verifier::external_body]
#[verifier::reject_recursive_types(K)]
#[verifier::reject_recursive_types(V)]
#[verifier::reject_recursive_types(S)]
pub struct ExHashMap<K, V, S>(im::HashMap<K, V, S>);

/// The mathematical map from names to cell numbers.
pub type Slots = Map<Seq<char>, usize>;

/// The bindings that a name table holds: each name with the number of its
/// cell. All contracts of this file speak of a table through this map.
pub uninterp spec fn slots(table: im::HashMap<String, usize>) -> Slots;

/// `im::HashMap::new`: a table that binds nothing.
#[verifier::external_body]
pub(crate) fn table_new() -> (table: im::HashMap<String, usize>)
    ensures
        slots(table) == Slots::empty(),
{
    im::HashMap::new()
}

/// `im::HashMap::update`: a new table that binds `name` to `cell`, replacing
/// an earlier binding of `name`, and is otherwise as `table`. `table` itself
/// is left as it was.
#[verifier::external_body]
pub(crate) fn table_update(
    table: &im::HashMap<String, usize>,
    name: String,
    cell: usize,
) -> (updated: im::HashMap<String, usize>)
    ensures
        slots(updated) == slots(*table).insert(name@, cell),
{
    table.update(name, cell)
}

/// `im::HashMap::get`: the cell bound to `name`, if any.
#[verifier::external_body]
pub(crate) fn table_get(table: &im::HashMap<String, usize>, name: &str) -> (cell: Option<usize>)
    ensures
        cell == (if slots(*table).contains_key(name@) {
            Some(slots(*table)[name@])
        } else {
            None
        }),
{
    table.get(name).copied()
}

/// `Clone::clone` of `im::HashMap`: a table with the same bindings.
#[verifier::external_body]
pub(crate) fn table_clone(table: &im::HashMap<String, usize>) -> (copy: im::HashMap<String, usize>)
    ensures
        slots(copy) == slots(*table),
{
    table.clone()
}

/// `PartialEq::eq` of `im::HashMap`: whether two tables hold the same
/// bindings.
#[verifier::external_body]
pub(crate) fn table_eq(
    left: &im::HashMap<String, usize>,
    right: &im::HashMap<String, usize>,
) -> (same: bool)
    ensures
        same == (slots(*left) == slots(*right)),
{
    left == right
}

/// `im::HashMap::iter`: every binding of the table exactly once. The order in
/// which they come depends on the hasher and is not stated.
#[verifier::external_body]
pub(crate) fn table_entries(table: &im::HashMap<String, usize>) -> (entries: Vec<(String, usize)>)
    ensures
        forall|i: int|
            0 <= i < entries.len() ==> slots(*table).contains_pair(
                (#[trigger] entries[i]).0@,
                entries[i].1,
            ),
        forall|i: int, j: int|
            0 <= i < j < entries.len() ==> (#[trigger] entries[i]).0@ != (#[trigger] entries[j]).0@,
        forall|name: Seq<char>| #[trigger]
            slots(*table).contains_key(name) ==> exists|i: int|
                0 <= i < entries.len() && (#[trigger] entries[i]).0@ == name,
{
    table.iter().map(|(name, cell)| (name.clone(), *cell)).collect()
}

} // verus!
