//! Short lists of task identifiers that live inline, without an allocation,
//! as long as they hold no more than five.

use smallvec::SmallVec;
use vstd::prelude::*;

verus! {

/// A list of task identifiers, kept in a `smallvec::SmallVec` with room for
/// five inline. Nothing is known of a value of it but what the functions
/// below state.
#[verifier::external_body]
pub struct InlineIds {
    items: SmallVec<[u64; 5]>,
}

/// The identifiers in a list, in the order they were pushed.
pub uninterp spec fn held_ids(list: InlineIds) -> Seq<u64>;

/// `SmallVec::new`: the new list is empty.
#[verifier::external_body]
pub(crate) fn ids_new() -> (list: InlineIds)
    ensures
        held_ids(list) == Seq::<u64>::empty(),
{
    InlineIds { items: SmallVec::new() }
}

/// `SmallVec::push`: the item goes to the end of the list; the others keep
/// their places.
#[verifier::external_body]
pub(crate) fn ids_push(list: &mut InlineIds, id: u64)
    ensures
        held_ids(*final(list)) == held_ids(*old(list)).push(id),
{
    list.items.push(id)
}

/// `SmallVec::len`: the number of items in the list.
#[verifier::external_body]
pub(crate) fn ids_len(list: &InlineIds) -> (n: usize)
    ensures
        n == held_ids(*list).len(),
{
    list.items.len()
}

/// `SmallVec::as_slice`, read at one place: the item at `index`.
#[verifier::external_body]
pub(crate) fn ids_get(list: &InlineIds, index: usize) -> (id: u64)
    requires
        index < held_ids(*list).len(),
    ensures
        id == held_ids(*list)[index as int],
{
    list.items.as_slice()[index]
}

} // verus!
