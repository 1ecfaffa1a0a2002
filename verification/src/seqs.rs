//! Facts about filtered sequences.

use vstd::prelude::*;

verus! {

/// Filtering after a push: the item is pushed on the filtered sequence if it passes.
pub proof fn lemma_filter_push<T>(items: Seq<T>, pred: spec_fn(T) -> bool, item: T)
    ensures
        pred(item) ==> items.push(item).filter(pred) == items.filter(pred).push(item),
        !pred(item) ==> items.push(item).filter(pred) == items.filter(pred),
{
    reveal(Seq::filter);
    assert(items.push(item).drop_last() =~= items);
}

/// Filtering keeps a sequence free of duplicates.
pub proof fn lemma_filter_no_duplicates<T>(items: Seq<T>, pred: spec_fn(T) -> bool)
    requires
        items.no_duplicates(),
    ensures
        items.filter(pred).no_duplicates(),
    decreases items.len(),
{
    reveal(Seq::filter);
    if items.len() > 0 {
        let before = items.drop_last();
        lemma_filter_no_duplicates(before, pred);
        let kept = before.filter(pred);
        assert forall|i: int| 0 <= i < kept.len() implies #[trigger] kept[i] != items.last() by {
            assert(kept.contains(kept[i]));
            before.lemma_filter_contains_rev(pred, kept[i]);
            let j = choose|j: int| 0 <= j < before.len() && before[j] == kept[i];
            assert(items[j] == kept[i]);
        }
    }
}

/// Filtering twice keeps what passes the narrower filter.
pub proof fn lemma_filter_twice<T>(
    items: Seq<T>,
    wide: spec_fn(T) -> bool,
    narrow: spec_fn(T) -> bool,
)
    requires
        forall|item: T| #[trigger] narrow(item) ==> wide(item),
    ensures
        items.filter(wide).filter(narrow) == items.filter(narrow),
    decreases items.len(),
{
    reveal(Seq::filter);
    if items.len() > 0 {
        let before = items.drop_last();
        lemma_filter_twice(before, wide, narrow);
        if wide(items.last()) {
            lemma_filter_push(before.filter(wide), narrow, items.last());
        }
    }
}

/// Where the items that pass stand: each of them once, in their order, and no others.
pub proof fn lemma_filter_picks<T>(items: Seq<T>, pred: spec_fn(T) -> bool) -> (at: Seq<int>)
    ensures
        at.len() == items.filter(pred).len(),
        forall|k: int|
            0 <= k < at.len() ==> {
                &&& 0 <= #[trigger] at[k] < items.len()
                &&& pred(items[at[k]])
                &&& items.filter(pred)[k] == items[at[k]]
            },
        forall|k: int, l: int| 0 <= k < l < at.len() ==> #[trigger] at[k] < #[trigger] at[l],
        forall|i: int| 0 <= i < items.len() && pred(#[trigger] items[i]) ==> at.contains(i),
    decreases items.len(),
{
    reveal(Seq::filter);
    if items.len() == 0 {
        Seq::empty()
    } else {
        let before = items.drop_last();
        let at = lemma_filter_picks(before, pred);
        let last = items.len() - 1;
        let all = if pred(items.last()) {
            at.push(last)
        } else {
            at
        };
        assert forall|i: int| 0 <= i < items.len() && pred(#[trigger] items[i]) implies all.contains(
            i,
        ) by {
            if i < last {
                assert(before[i] == items[i]);
                let k = choose|k: int| 0 <= k < at.len() && at[k] == i;
                assert(all[k] == i);
            } else {
                assert(all[at.len() as int] == i);
            }
        }
        all
    }
}

} // verus!
