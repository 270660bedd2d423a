//! Facts about filtered sequences that several modules need.

use vstd::prelude::*;

verus! {

/// Filtering a sequence of one item keeps it or nothing.
pub(crate) proof fn lemma_filter_one<T>(item: T, keep: spec_fn(T) -> bool)
    ensures
        seq![item].filter(keep) == (if keep(item) {
            seq![item]
        } else {
            Seq::<T>::empty()
        }),
{
    reveal(Seq::filter);
    let one = seq![item];
    assert(one.drop_last() =~= Seq::<T>::empty());
    assert(one.drop_last().filter(keep) =~= Seq::<T>::empty());
    assert(Seq::<T>::empty().push(item) =~= one);
}

/// Filtering keeps nothing of a sequence in which nothing passes.
pub(crate) proof fn lemma_filter_none<T>(items: Seq<T>, keep: spec_fn(T) -> bool)
    requires
        forall|i: int| 0 <= i < items.len() ==> !keep(#[trigger] items[i]),
    ensures
        items.filter(keep) == Seq::<T>::empty(),
    decreases items.len(),
{
    reveal(Seq::filter);
    if items.len() > 0 {
        let front = items.drop_last();
        assert forall|i: int| 0 <= i < front.len() implies !keep(#[trigger] front[i]) by {
            assert(front[i] == items[i]);
        }
        lemma_filter_none(front, keep);
    }
}

/// Filtering the first items of a sequence and one more: the one more is
/// kept at the end, or nothing changes.
pub(crate) proof fn lemma_filter_next<T>(items: Seq<T>, count: int, keep: spec_fn(T) -> bool)
    requires
        0 <= count < items.len(),
    ensures
        items.take(count + 1).filter(keep) == (if keep(items[count]) {
            items.take(count).filter(keep).push(items[count])
        } else {
            items.take(count).filter(keep)
        }),
{
    reveal(Seq::filter);
    assert(items.take(count + 1).drop_last() =~= items.take(count));
    assert(items.take(count + 1).last() == items[count]);
}

} // verus!
