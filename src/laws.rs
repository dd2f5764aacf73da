use vstd::prelude::*;

use crate::bag::{
    accepts_item, count_draw_hits, count_item_hits, in_population,
};

verus! {

/// Single-draw estimates are ratios in `[0, 1]`: no more draws are counted as
/// hits than were made.
pub proof fn lemma_item_hits_bounded<T, F: Fn(&T) -> bool>(f: F, items: Seq<T>, draws: Seq<usize>)
    ensures
        count_item_hits(f, items, draws) <= draws.len(),
    decreases draws.len(),
{
    if draws.len() > 0 {
        lemma_item_hits_bounded(f, items, draws.drop_last());
    }
}

/// Multi-draw estimates are ratios in `[0, 1]`: no more selections are
/// counted as hits than were made.
pub proof fn lemma_draw_hits_bounded<T, F: Fn(Vec<&T>) -> bool>(
    f: F,
    items: Seq<T>,
    draws: Seq<Seq<usize>>,
)
    ensures
        count_draw_hits(f, items, draws) <= draws.len(),
    decreases draws.len(),
{
    if draws.len() > 0 {
        lemma_draw_hits_bounded(f, items, draws.drop_last());
    }
}

/// On a bag of one item every draw picks that item, so the count of hits is
/// either every draw or none, as the item meets the predicate or not.
pub proof fn lemma_single_item_all_or_none<T, F: Fn(&T) -> bool>(
    f: F,
    items: Seq<T>,
    draws: Seq<usize>,
)
    requires
        items.len() == 1,
        in_population(draws, 1),
    ensures
        count_item_hits(f, items, draws) == (if accepts_item(f, &items[0]) {
            draws.len()
        } else {
            0
        }),
    decreases draws.len(),
{
    if draws.len() > 0 {
        lemma_single_item_all_or_none(f, items, draws.drop_last());
        assert(draws.last() < 1);
    }
}

} // verus!
