//! Insertion-ordered sets of names, held in `indexmap::IndexSet`.

use vstd::prelude::*;
use indexmap::IndexSet;

verus! {

/// `indexmap::IndexSet`, known to Verus only as an opaque type.
#[verifier::external_type_specification]
#[verifier::external_body]
#[verifier::reject_recursive_types(T)]
#[verifier::reject_recursive_types(S)]
pub struct ExIndexSet<T, S>(IndexSet<T, S>);

/// The names held by a set, in insertion order.
pub uninterp spec fn set_items(set: IndexSet<String>) -> Seq<Seq<char>>;

/// `IndexSet::new`: the set it makes holds nothing.
#[verifier::external_body]
pub(crate) fn new_name_set() -> (set: IndexSet<String>)
    ensures
        set_items(set) == Seq::<Seq<char>>::empty(),
{
    IndexSet::new()
}

/// `IndexSet::contains`: true exactly when an equal name is held.
#[verifier::external_body]
pub(crate) fn name_set_contains(set: &IndexSet<String>, name: &String) -> (res: bool)
    ensures
        res == set_items(*set).contains(name@),
{
    set.contains(name)
}

/// `IndexSet::insert`: a name already held leaves the set as it was and
/// gives `false`; a new name goes to the end and gives `true`.
#[verifier::external_body]
pub(crate) fn name_set_insert(set: &mut IndexSet<String>, name: String) -> (res: bool)
    ensures
        res == !set_items(*old(set)).contains(name@),
        res ==> set_items(*final(set)) == set_items(*old(set)).push(name@),
        !res ==> set_items(*final(set)) == set_items(*old(set)),
{
    set.insert(name)
}

/// `<IndexSet as Clone>::clone`: the copy holds the same names in the same
/// order.
#[verifier::external_body]
pub(crate) fn clone_name_set(set: &IndexSet<String>) -> (res: IndexSet<String>)
    ensures
        set_items(res) == set_items(*set),
{
    set.clone()
}

} // verus!
