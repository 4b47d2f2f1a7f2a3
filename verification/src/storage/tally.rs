use vstd::prelude::*;

verus! {

/// The sum of a measure over all items of a sequence.
pub open spec fn total<T>(items: Seq<T>, measure: spec_fn(T) -> nat) -> nat
    decreases items.len(),
{
    if items.len() == 0 {
        0
    } else {
        total(items.drop_last(), measure) + measure(items.last())
    }
}

/// A new last item adds its measure to the total.
pub proof fn lemma_total_push<T>(items: Seq<T>, measure: spec_fn(T) -> nat, item: T)
    ensures
        total(items.push(item), measure) == total(items, measure) + measure(item),
{
    assert(items.push(item).drop_last() =~= items);
}

/// No single item measures more than the total.
pub proof fn lemma_total_covers<T>(items: Seq<T>, measure: spec_fn(T) -> nat, at: int)
    requires
        0 <= at < items.len(),
    ensures
        measure(items[at]) <= total(items, measure),
    decreases items.len(),
{
    if at < items.len() - 1 {
        lemma_total_covers(items.drop_last(), measure, at);
    }
}

/// Replacing one item changes the total by the difference of the measures.
pub proof fn lemma_total_update<T>(items: Seq<T>, measure: spec_fn(T) -> nat, at: int, item: T)
    requires
        0 <= at < items.len(),
    ensures
        total(items.update(at, item), measure) + measure(items[at]) == total(items, measure)
            + measure(item),
    decreases items.len(),
{
    if at == items.len() - 1 {
        assert(items.update(at, item).drop_last() =~= items.drop_last());
    } else {
        assert(items.update(at, item).drop_last() =~= items.drop_last().update(at, item));
        lemma_total_update(items.drop_last(), measure, at, item);
    }
}

/// Taking one item out takes its measure off the total.
pub proof fn lemma_total_remove<T>(items: Seq<T>, measure: spec_fn(T) -> nat, at: int)
    requires
        0 <= at < items.len(),
    ensures
        total(items.remove(at), measure) + measure(items[at]) == total(items, measure),
    decreases items.len(),
{
    if at < items.len() - 1 {
        assert(items.remove(at).drop_last() =~= items.drop_last().remove(at));
        lemma_total_remove(items.drop_last(), measure, at);
    }
}

/// Dropping the first item takes its measure off the total.
pub proof fn lemma_total_drop_first<T>(items: Seq<T>, measure: spec_fn(T) -> nat)
    requires
        items.len() > 0,
    ensures
        total(items.drop_first(), measure) + measure(items[0]) == total(items, measure),
{
    lemma_total_remove(items, measure, 0);
}

} // verus!
