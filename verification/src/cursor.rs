//! What it means to hand out the items of a sequence one by one.
//!
//! Every plan of this crate is a cursor over a sequence of actions that is
//! fixed when the plan is made.  Its model is the sequence of the actions
//! that are still to come.

use vstd::prelude::*;

verus! {

/// A cursor that held `before` has handed out `item` and now holds `after`:
/// the item is the first of `before` and `after` is the rest, or `before` is
/// empty, nothing is handed out and nothing changes.
pub open spec fn handed_out<A>(before: Seq<A>, item: Option<A>, after: Seq<A>) -> bool {
    if before.len() == 0 {
        item.is_none() && after == before
    } else {
        item == Some(before[0]) && after == before.skip(1)
    }
}

/// What a cursor hands out, and what it holds afterwards, depends on nothing
/// but what it held: from the same state the same action follows, and the
/// same state after it.
pub proof fn lemma_handed_out_determined<A>(
    before: Seq<A>,
    item1: Option<A>,
    after1: Seq<A>,
    item2: Option<A>,
    after2: Seq<A>,
)
    requires
        handed_out(before, item1, after1),
        handed_out(before, item2, after2),
    ensures
        item1 == item2,
        after1 == after2,
{
}

/// Handing out never adds an item: an item is handed out exactly when one is
/// held, and then one fewer is held.
pub proof fn lemma_handed_out_len<A>(before: Seq<A>, item: Option<A>, after: Seq<A>)
    requires
        handed_out(before, item, after),
    ensures
        item.is_some() <==> before.len() > 0,
        after.len() == (if before.len() > 0 {
            before.len() - 1
        } else {
            0
        }),
{
}

} // verus!
