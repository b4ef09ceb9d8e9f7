//! The Lua methods registered so far for each wrapper, held in an
//! `indexmap::IndexMap` from wrapper name to methods.

use vstd::prelude::*;
use indexmap::IndexMap;
use crate::model::{LuaMethod, duplicate_methods};
use crate::derive_flags::table_index;

verus! {

/// `indexmap::IndexMap`, known to Verus only as an opaque type.
#[verifier::external_type_specification]
#[verifier::external_body]
#[verifier::reject_recursive_types(K)]
#[verifier::reject_recursive_types(V)]
#[verifier::reject_recursive_types(S)]
pub struct ExIndexMap<K, V, S>(IndexMap<K, V, S>);

/// The entries of a method table, wrapper name and methods, in insertion
/// order.
pub uninterp spec fn table_entries(table: IndexMap<String, Vec<LuaMethod>>) -> Seq<(String, Vec<LuaMethod>)>;

/// `IndexMap::iter`, each entry copied: the table's entries in order.
#[verifier::external_body]
pub(crate) fn table_to_vec(table: &IndexMap<String, Vec<LuaMethod>>) -> (res: Vec<(String, Vec<LuaMethod>)>)
    ensures
        res@ == table_entries(*table),
{
    table.iter().map(|(name, methods)| (name.clone(), duplicate_methods(methods))).collect()
}

/// `IndexMap::get`: the methods of the entry under `name`, if there is
/// one. Names in the table are unique, so that entry is the first one
/// under `name`.
#[verifier::external_body]
pub(crate) fn table_get<'a>(table: &'a IndexMap<String, Vec<LuaMethod>>, name: &String) -> (res: Option<
    &'a Vec<LuaMethod>,
>)
    ensures
        res is Some <==> table_index(table_entries(*table), name@) >= 0,
        res matches Some(v) ==> *v == table_entries(*table)[table_index(table_entries(*table), name@)].1,
{
    table.get(name)
}

} // verus!
