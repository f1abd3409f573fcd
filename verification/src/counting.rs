//! Counting what is true of a list.
use vstd::prelude::*;

verus! {

/// How many of a list are true.
pub open spec fn trues(list: Seq<bool>) -> nat
    decreases list.len(),
{
    if list.len() == 0 {
        0
    } else {
        trues(list.drop_last()) + if list.last() { 1nat } else { 0 }
    }
}

/// One true less.
pub proof fn lemma_trues_update(list: Seq<bool>, i: int)
    requires
        0 <= i < list.len(),
        list[i],
    ensures
        trues(list.update(i, false)) + 1 == trues(list),
    decreases list.len(),
{
    let now = list.update(i, false);
    if i == list.len() - 1 {
        assert(now.drop_last() =~= list.drop_last());
    } else {
        lemma_trues_update(list.drop_last(), i);
        assert(now.drop_last() =~= list.drop_last().update(i, false));
    }
}

/// All of a list.
pub proof fn lemma_trues_all(list: Seq<bool>)
    requires
        forall|i: int| 0 <= i < list.len() ==> #[trigger] list[i],
    ensures
        trues(list) == list.len(),
    decreases list.len(),
{
    if list.len() > 0 {
        lemma_trues_all(list.drop_last());
    }
}

/// No more of a list are true than it is long.
pub proof fn lemma_trues_bound(list: Seq<bool>)
    ensures
        trues(list) <= list.len(),
    decreases list.len(),
{
    if list.len() > 0 {
        lemma_trues_bound(list.drop_last());
    }
}

/// A list with something true in it counts to something.
pub proof fn lemma_trues_some(list: Seq<bool>, i: int)
    requires
        0 <= i < list.len(),
        list[i],
    ensures
        trues(list) > 0,
    decreases list.len(),
{
    if i < list.len() - 1 {
        lemma_trues_some(list.drop_last(), i);
    }
}

} // verus!
