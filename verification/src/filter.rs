//! Facts about filtering a sequence.

use vstd::prelude::*;

verus! {

/// Whether `picked` names, in ascending order, the index of every item of `all` that
/// `keep` accepts, and no other index.
pub open spec fn picks_accepted<T>(all: Seq<T>, keep: spec_fn(T) -> bool, picked: Seq<int>) -> bool {
    &&& forall|k: int|
        0 <= k < picked.len() ==> 0 <= #[trigger] picked[k] < all.len() && keep(all[picked[k]])
    &&& forall|j: int, k: int| 0 <= j < k < picked.len() ==> picked[j] < picked[k]
    &&& forall|i: int| 0 <= i < all.len() && keep(#[trigger] all[i]) ==> picked.contains(i)
}

/// The items of `all` at the indices `picked`, in the order of `picked`.
pub open spec fn items_at<T>(all: Seq<T>, picked: Seq<int>) -> Seq<T> {
    Seq::new(picked.len(), |k: int| all[picked[k]])
}

/// Filtering keeps the accepted items where they stood: the result is read off the
/// sequence at ascending indices, one for each accepted item.
pub proof fn lemma_filter_picks_accepted<T>(
    all: Seq<T>,
    keep: spec_fn(T) -> bool,
) -> (picked: Seq<int>)
    ensures
        picks_accepted(all, keep, picked),
        all.filter(keep) == items_at(all, picked),
    decreases all.len(),
{
    reveal(Seq::filter);
    if all.len() == 0 {
        Seq::empty()
    } else {
        let front = all.drop_last();
        let before = lemma_filter_picks_accepted(front, keep);
        let last = all.len() - 1;
        let picked = if keep(all.last()) {
            before.push(last)
        } else {
            before
        };
        assert forall|i: int| 0 <= i < all.len() && keep(#[trigger] all[i]) implies picked.contains(
            i,
        ) by {
            if i < last {
                assert(keep(front[i]));
                let k = choose|k: int| 0 <= k < before.len() && before[k] == i;
                assert(picked[k] == i);
            } else {
                assert(picked[picked.len() - 1] == i);
            }
        }
        assert(all.filter(keep) =~= items_at(all, picked));
        picked
    }
}

/// Filtering with a test that every item passes changes nothing.
pub proof fn lemma_filter_keeps_all<T>(all: Seq<T>, keep: spec_fn(T) -> bool)
    requires
        forall|i: int| 0 <= i < all.len() ==> keep(#[trigger] all[i]),
    ensures
        all.filter(keep) == all,
    decreases all.len(),
{
    reveal(Seq::filter);
    if all.len() > 0 {
        let front = all.drop_last();
        lemma_filter_keeps_all(front, keep);
    }
}

/// Filtering with a test that no item passes leaves nothing.
pub proof fn lemma_filter_keeps_none<T>(all: Seq<T>, keep: spec_fn(T) -> bool)
    requires
        forall|i: int| 0 <= i < all.len() ==> !keep(#[trigger] all[i]),
    ensures
        all.filter(keep) == Seq::<T>::empty(),
    decreases all.len(),
{
    reveal(Seq::filter);
    if all.len() > 0 {
        let front = all.drop_last();
        lemma_filter_keeps_none(front, keep);
    }
}

/// Filtering and then changing each item is changing each item and then filtering,
/// where the test before the change asks what the test after it asks of the changed item.
pub proof fn lemma_filter_then_change<T, U>(
    all: Seq<T>,
    change: spec_fn(T) -> U,
    keep_before: spec_fn(T) -> bool,
    keep_after: spec_fn(U) -> bool,
)
    requires
        forall|item: T| #[trigger] keep_before(item) == keep_after(change(item)),
    ensures
        all.filter(keep_before).map_values(change) == all.map_values(change).filter(keep_after),
    decreases all.len(),
{
    reveal(Seq::filter);
    if all.len() == 0 {
        assert(all.filter(keep_before).map_values(change) =~= all.map_values(change).filter(
            keep_after,
        ));
    } else {
        let front = all.drop_last();
        lemma_filter_then_change(front, change, keep_before, keep_after);
        assert(all.map_values(change).drop_last() =~= front.map_values(change));
        assert(front.filter(keep_before).push(all.last()).map_values(change)
            =~= front.filter(keep_before).map_values(change).push(change(all.last())));
    }
}

} // verus!
