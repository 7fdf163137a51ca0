//! The slot table of one side of the book: a `slab::Slab` that hands out the
//! ids of resident orders and keeps what each of them asks for.
//!
//! `Slab` is opaque to the verifier. What it holds is named by
//! [`slot_entries`], and the three calls the book makes are given contracts
//! over that name.

use vstd::prelude::*;
use slab::Slab;
use crate::model::OrderCommons;

verus! {

#[verifier::external_type_specification]
#[verifier::external_body]
#[verifier::reject_recursive_types(T)]
pub struct ExSlab<T>(Slab<T>);

/// The occupied slots of a table: each key in use, with the quantity and the
/// price value of the entry stored under it.
pub uninterp spec fn slot_entries(table: Slab<OrderCommons>) -> Map<usize, (usize, nat)>;

/// An empty table with room for `capacity` entries.
///
/// Trusted: `Slab::with_capacity` returns a slab with no occupied slot.
#[verifier::external_body]
pub(crate) fn empty_slots(capacity: usize) -> (fresh: Slab<OrderCommons>)
    ensures
        forall|key: usize| !slot_entries(fresh).contains_key(key),
{
    Slab::with_capacity(capacity)
}

/// Stores `entry` in a vacant slot and returns that slot's key.
///
/// Trusted: `Slab::insert` picks a key that is not in use, stores the value
/// under it and leaves every other slot as it was. Which vacant key it picks
/// is not stated. As with `Vec::push`, running out of memory is not modelled.
#[verifier::external_body]
pub(crate) fn occupy_slot(table: &mut Slab<OrderCommons>, entry: OrderCommons) -> (key: usize)
    ensures
        !slot_entries(*old(table)).contains_key(key),
        slot_entries(*final(table)) == slot_entries(*old(table)).insert(key, entry@),
{
    table.insert(entry)
}

/// Empties the slot `key` and returns what it held.
///
/// Trusted: `Slab::remove` on a key in use returns the value stored under it,
/// releases the key and leaves every other slot as it was. It panics on a key
/// that is not in use, which the precondition rules out.
#[verifier::external_body]
pub(crate) fn release_slot(table: &mut Slab<OrderCommons>, key: usize) -> (entry: OrderCommons)
    requires
        slot_entries(*old(table)).contains_key(key),
    ensures
        entry@ == slot_entries(*old(table))[key],
        slot_entries(*final(table)) == slot_entries(*old(table)).remove(key),
{
    table.remove(key)
}

} // verus!
