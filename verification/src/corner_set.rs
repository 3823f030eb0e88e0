//! The insertion-ordered set of grid corners, kept by `indexmap::IndexSet`.
//!
//! Verus does not look inside the set. Its contents are spoken of through
//! [`corner_seq`], and the methods the baker needs are given contracts here
//! that are taken on trust from the `indexmap` sources.

use indexmap::IndexSet;
use std::collections::hash_map::RandomState;
use vstd::prelude::*;

verus! {

#[verifier::external_type_specification]
#[verifier::external_body]
#[verifier::reject_recursive_types(T)]
#[verifier::reject_recursive_types(S)]
pub struct ExIndexSet<T, S>(IndexSet<T, S>);

/// The corners held by the set, in the order in which they were first inserted.
pub uninterp spec fn corner_seq(set: IndexSet<(u32, u32), RandomState>) -> Seq<(u32, u32)>;

/// `IndexSet::new`: a set that holds nothing.
#[verifier::external_body]
pub(crate) fn corner_set_new() -> (set: IndexSet<(u32, u32), RandomState>)
    ensures
        corner_seq(set) == Seq::<(u32, u32)>::empty(),
{
    IndexSet::new()
}

/// `IndexSet::insert_full`: a corner that the set already holds stays where it
/// is and its index comes back with `false`; a new corner goes to the end and
/// its index, the former length, comes back with `true`.
#[verifier::external_body]
pub(crate) fn corner_set_insert(
    set: &mut IndexSet<(u32, u32), RandomState>,
    corner: (u32, u32),
) -> (r: (usize, bool))
    ensures
        corner_seq(*old(set)).contains(corner) ==> {
            &&& !r.1
            &&& r.0 < corner_seq(*old(set)).len()
            &&& corner_seq(*old(set))[r.0 as int] == corner
            &&& corner_seq(*final(set)) == corner_seq(*old(set))
        },
        !corner_seq(*old(set)).contains(corner) ==> {
            &&& r.1
            &&& r.0 == corner_seq(*old(set)).len()
            &&& corner_seq(*final(set)) == corner_seq(*old(set)).push(corner)
        },
{
    set.insert_full(corner)
}

/// `IndexSet::get_index`: the corner at a position of the insertion order,
/// `None` past the end.
#[verifier::external_body]
pub(crate) fn corner_set_get(set: &IndexSet<(u32, u32), RandomState>, index: usize) -> (r: Option<
    (u32, u32),
>)
    ensures
        index < corner_seq(*set).len() ==> r == Some(corner_seq(*set)[index as int]),
        index >= corner_seq(*set).len() ==> r.is_none(),
{
    set.get_index(index).copied()
}

} // verus!
