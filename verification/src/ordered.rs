//! Maps that keep their entries in the order of insertion, held by the
//! `indexmap` crate.

use vstd::prelude::*;
use indexmap::IndexMap;
use crate::predicate::{Predicate, PredicateView};
use crate::value::{ArgView, CheckFieldsPredicateArg};

verus! {

/// `indexmap::IndexMap`, a hash map that keeps its entries in the order in
/// which their keys were first inserted.
#[verifier::external_type_specification]
#[verifier::external_body]
#[verifier::reject_recursive_types(K)]
#[verifier::reject_recursive_types(V)]
#[verifier::reject_recursive_types(S)]
pub struct ExIndexMap<K, V, S>(IndexMap<K, V, S>);

/// The entries of a map of arguments, in their order: each key with the model
/// of its argument.
pub uninterp spec fn config_items(map: IndexMap<String, CheckFieldsPredicateArg>) -> Seq<
    (Seq<char>, ArgView),
>;

/// The entries of a map of predicates, in their order: each name with the
/// model of its predicate.
pub uninterp spec fn named_predicates(map: IndexMap<String, Predicate>) -> Seq<
    (Seq<char>, PredicateView),
>;

/// The entries after `value` was put under `name`: where an entry stood under
/// that name, it keeps its place and holds the new value; otherwise a new
/// entry comes last. (The names of a map are distinct, so at most one entry
/// stands under a name.)
pub open spec fn with_entry<V>(entries: Seq<(Seq<char>, V)>, name: Seq<char>, value: V) -> Seq<
    (Seq<char>, V),
> {
    if exists|at: int| 0 <= at < entries.len() && entries[at].0 == name {
        let at = choose|at: int| 0 <= at < entries.len() && entries[at].0 == name;
        entries.update(at, (name, value))
    } else {
        entries.push((name, value))
    }
}

/// Walks the map with `IndexMap::iter` and collects what it yields: the
/// entries in their order, each by reference.
#[verifier::external_body]
pub(crate) fn arguments_in_order(map: &IndexMap<String, CheckFieldsPredicateArg>) -> (entries: Vec<
    (&String, &CheckFieldsPredicateArg),
>)
    ensures
        entries@.len() == config_items(*map).len(),
        forall|i: int|
            0 <= i < entries@.len() ==> (#[trigger] entries@[i]).0@ == config_items(*map)[i].0
                && entries@[i].1@ == config_items(*map)[i].1,
{
    map.iter().collect()
}

/// Calls `IndexMap::new`: a map without entries.
#[verifier::external_body]
pub(crate) fn no_predicates() -> (map: IndexMap<String, Predicate>)
    ensures
        named_predicates(map) == Seq::<(Seq<char>, PredicateView)>::empty(),
{
    IndexMap::new()
}

/// Calls `IndexMap::insert`: a predicate put under a name that the map holds
/// takes the place of the one that stood there, and one put under a new name
/// comes last.
#[verifier::external_body]
pub(crate) fn put_predicate(map: &mut IndexMap<String, Predicate>, name: String, predicate: Predicate)
    ensures
        named_predicates(*final(map)) == with_entry(named_predicates(*old(map)), name@, predicate@),
{
    map.insert(name, predicate);
}

/// Calls `IndexMap::len`: the number of entries.
#[verifier::external_body]
pub(crate) fn predicate_count(map: &IndexMap<String, Predicate>) -> (n: usize)
    ensures
        n == named_predicates(*map).len(),
{
    map.len()
}

/// Calls `IndexMap::get_index`: the entry at a place below the number of
/// entries, and nothing from there on.
#[verifier::external_body]
pub(crate) fn predicate_at(map: &IndexMap<String, Predicate>, at: usize) -> (entry: Option<
    (&String, &Predicate),
>)
    ensures
        match entry {
            Some((name, predicate)) => at < named_predicates(*map).len() && name@
                == named_predicates(*map)[at as int].0 && predicate@ == named_predicates(
                *map,
            )[at as int].1,
            None => at >= named_predicates(*map).len(),
        },
{
    map.get_index(at)
}

} // verus!
