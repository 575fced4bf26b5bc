//! Counting placed items and used bins over the layouts of a problem.

use vstd::prelude::*;
use crate::entities::layout::{Layout, LayoutSnapshot, LayoutView};
use crate::entities::placed_item::PlacedItemView;
use crate::util::sums::{lemma_sum_nonneg, lemma_sum_push, lemma_sum_remove, lemma_sum_update, sum};

verus! {

/// One for each placed item that is a copy of the item `item_id`, zero for
/// each other.
pub open spec fn item_hits(placed: Seq<PlacedItemView>, item_id: int) -> Seq<int> {
    Seq::new(
        placed.len(),
        |k: int|
            if placed[k].item_id == item_id {
                1int
            } else {
                0int
            },
    )
}

/// How many of the placed items are copies of the item `item_id`.
pub open spec fn count_item(placed: Seq<PlacedItemView>, item_id: int) -> int {
    sum(item_hits(placed, item_id))
}

/// For each layout, how many copies of the item `item_id` lie in it.
pub open spec fn layout_counts(layouts: Seq<LayoutView>, item_id: int) -> Seq<int> {
    Seq::new(layouts.len(), |l: int| count_item(layouts[l].placed, item_id))
}

/// How many copies of the item `item_id` lie in the layouts together.
pub open spec fn count_in_layouts(layouts: Seq<LayoutView>, item_id: int) -> int {
    sum(layout_counts(layouts, item_id))
}

/// One for each layout in a copy of the bin `bin_id`, zero for each other.
pub open spec fn bin_hits(layouts: Seq<LayoutView>, bin_id: int) -> Seq<int> {
    Seq::new(
        layouts.len(),
        |l: int|
            if layouts[l].bin_id == bin_id {
                1int
            } else {
                0int
            },
    )
}

/// How many of the layouts are in a copy of the bin `bin_id`.
pub open spec fn count_bin(layouts: Seq<LayoutView>, bin_id: int) -> int {
    sum(bin_hits(layouts, bin_id))
}

/// For each layout, twice the area that its items cover.
pub open spec fn used_areas(layouts: Seq<LayoutView>) -> Seq<int> {
    Seq::new(layouts.len(), |l: int| layouts[l].usage.used as int)
}

/// For each layout, twice the area of its bin.
pub open spec fn bin_areas(layouts: Seq<LayoutView>) -> Seq<int> {
    Seq::new(layouts.len(), |l: int| layouts[l].usage.total as int)
}

/// The views of the layouts.
pub open spec fn layout_views(layouts: Seq<Layout>) -> Seq<LayoutView> {
    Seq::new(layouts.len(), |l: int| layouts[l]@)
}

/// The views of the snapshots.
pub open spec fn snapshot_views(snapshots: Seq<LayoutSnapshot>) -> Seq<LayoutView> {
    Seq::new(snapshots.len(), |l: int| snapshots[l]@)
}

/// The numbers as integers.
pub open spec fn as_ints(v: Seq<usize>) -> Seq<int> {
    Seq::new(v.len(), |i: int| v[i] as int)
}

/// A count is never negative.
pub proof fn lemma_count_item_nonneg(placed: Seq<PlacedItemView>, item_id: int)
    ensures
        0 <= count_item(placed, item_id),
{
    lemma_sum_nonneg(item_hits(placed, item_id));
}

/// A count over layouts is never negative.
pub proof fn lemma_count_in_layouts_nonneg(layouts: Seq<LayoutView>, item_id: int)
    ensures
        0 <= count_in_layouts(layouts, item_id),
{
    assert forall|l: int| 0 <= l < layouts.len() implies 0 <= #[trigger] layout_counts(
        layouts,
        item_id,
    )[l] by {
        lemma_count_item_nonneg(layouts[l].placed, item_id);
    }
    lemma_sum_nonneg(layout_counts(layouts, item_id));
}

/// One more placed item counts for its own item and for no other.
pub proof fn lemma_count_item_push(placed: Seq<PlacedItemView>, p: PlacedItemView, item_id: int)
    ensures
        count_item(placed.push(p), item_id) == count_item(placed, item_id) + if p.item_id
            == item_id {
            1int
        } else {
            0int
        },
{
    let x = if p.item_id == item_id {
        1int
    } else {
        0int
    };
    assert(item_hits(placed.push(p), item_id) =~= item_hits(placed, item_id).push(x));
    lemma_sum_push(item_hits(placed, item_id), x);
}

/// One placed item less counts less for its own item and for no other.
pub proof fn lemma_count_item_remove(placed: Seq<PlacedItemView>, k: int, item_id: int)
    requires
        0 <= k < placed.len(),
    ensures
        count_item(placed.remove(k), item_id) == count_item(placed, item_id) - if placed[k].item_id
            == item_id {
            1int
        } else {
            0int
        },
{
    assert(item_hits(placed.remove(k), item_id) =~= item_hits(placed, item_id).remove(k));
    lemma_sum_remove(item_hits(placed, item_id), k);
}

/// No placed items, no copies.
pub proof fn lemma_count_item_empty(placed: Seq<PlacedItemView>, item_id: int)
    requires
        placed.len() == 0,
    ensures
        count_item(placed, item_id) == 0,
{
}

/// A layout that changes changes the count by as much as its own changes.
pub proof fn lemma_count_layout_update(
    layouts: Seq<LayoutView>,
    l: int,
    new_layout: LayoutView,
    item_id: int,
)
    requires
        0 <= l < layouts.len(),
    ensures
        count_in_layouts(layouts.update(l, new_layout), item_id) == count_in_layouts(
            layouts,
            item_id,
        ) - count_item(layouts[l].placed, item_id) + count_item(new_layout.placed, item_id),
{
    assert(layout_counts(layouts.update(l, new_layout), item_id) =~= layout_counts(
        layouts,
        item_id,
    ).update(l, count_item(new_layout.placed, item_id)));
    lemma_sum_update(layout_counts(layouts, item_id), l, count_item(new_layout.placed, item_id));
}

/// One more layout adds its own count.
pub proof fn lemma_count_layout_push(layouts: Seq<LayoutView>, new_layout: LayoutView, item_id: int)
    ensures
        count_in_layouts(layouts.push(new_layout), item_id) == count_in_layouts(layouts, item_id)
            + count_item(new_layout.placed, item_id),
{
    assert(layout_counts(layouts.push(new_layout), item_id) =~= layout_counts(
        layouts,
        item_id,
    ).push(count_item(new_layout.placed, item_id)));
    lemma_sum_push(layout_counts(layouts, item_id), count_item(new_layout.placed, item_id));
}

/// One layout less takes its own count away.
pub proof fn lemma_count_layout_remove(layouts: Seq<LayoutView>, l: int, item_id: int)
    requires
        0 <= l < layouts.len(),
    ensures
        count_in_layouts(layouts.remove(l), item_id) == count_in_layouts(layouts, item_id)
            - count_item(layouts[l].placed, item_id),
{
    assert(layout_counts(layouts.remove(l), item_id) =~= layout_counts(layouts, item_id).remove(l));
    lemma_sum_remove(layout_counts(layouts, item_id), l);
}

/// A layout that changes but stays in its bin leaves the counts of bins as
/// they are.
pub proof fn lemma_count_bin_update(
    layouts: Seq<LayoutView>,
    l: int,
    new_layout: LayoutView,
    bin_id: int,
)
    requires
        0 <= l < layouts.len(),
        new_layout.bin_id == layouts[l].bin_id,
    ensures
        count_bin(layouts.update(l, new_layout), bin_id) == count_bin(layouts, bin_id),
{
    assert(bin_hits(layouts.update(l, new_layout), bin_id) =~= bin_hits(layouts, bin_id));
}

/// One more layout counts for its own bin and for no other.
pub proof fn lemma_count_bin_push(layouts: Seq<LayoutView>, new_layout: LayoutView, bin_id: int)
    ensures
        count_bin(layouts.push(new_layout), bin_id) == count_bin(layouts, bin_id)
            + if new_layout.bin_id == bin_id {
            1int
        } else {
            0int
        },
{
    let x = if new_layout.bin_id == bin_id {
        1int
    } else {
        0int
    };
    assert(bin_hits(layouts.push(new_layout), bin_id) =~= bin_hits(layouts, bin_id).push(x));
    lemma_sum_push(bin_hits(layouts, bin_id), x);
}

/// One layout less counts less for its own bin and for no other.
pub proof fn lemma_count_bin_remove(layouts: Seq<LayoutView>, l: int, bin_id: int)
    requires
        0 <= l < layouts.len(),
    ensures
        count_bin(layouts.remove(l), bin_id) == count_bin(layouts, bin_id) - if layouts[l].bin_id
            == bin_id {
            1int
        } else {
            0int
        },
{
    assert(bin_hits(layouts.remove(l), bin_id) =~= bin_hits(layouts, bin_id).remove(l));
    lemma_sum_remove(bin_hits(layouts, bin_id), l);
}

} // verus!
