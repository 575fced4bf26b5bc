//! Snapshots of problems.

use vstd::prelude::*;
use crate::entities::instances::instance::{
    lemma_polygon_area_bound,
    total_item_area,
    Instance,
    MAX_TOTAL_QTY,
};
use crate::entities::item::Item;
use crate::entities::bin::Bin;
use crate::entities::layout::{LayoutSnapshot, LayoutView, Usage};
use crate::entities::problems::counting::{
    as_ints,
    bin_areas,
    count_in_layouts,
    snapshot_views,
    used_areas,
};
use crate::util::sums::{lemma_sum_covers, lemma_sum_pointwise, lemma_sum_prefix, sum};

verus! {

/// What a problem held at some moment. A solution does not change.
#[derive(Debug)]
pub struct Solution {
    pub id: usize,
    pub layout_snapshots: Vec<LayoutSnapshot>,
    /// The share of the area of all bins in use that items cover.
    pub usage: Usage,
    /// For each item, how many copies are placed.
    pub placed_item_qtys: Vec<usize>,
    /// For each item, how many copies are demanded.
    pub target_item_qtys: Vec<usize>,
    /// For each bin, how many copies are left in stock.
    pub bin_qtys: Vec<usize>,
    /// When the solution was made, in milliseconds of the caller's clock.
    pub time_stamp: u64,
}

/// What a solution holds, as mathematical values.
pub struct SolutionView {
    pub id: usize,
    pub layouts: Seq<LayoutView>,
    pub usage: Usage,
    pub placed_item_qtys: Seq<usize>,
    pub target_item_qtys: Seq<usize>,
    pub bin_qtys: Seq<usize>,
    pub time_stamp: u64,
}

impl View for Solution {
    type V = SolutionView;

    open spec fn view(&self) -> SolutionView {
        SolutionView {
            id: self.id,
            layouts: snapshot_views(self.layout_snapshots@),
            usage: self.usage,
            placed_item_qtys: self.placed_item_qtys@,
            target_item_qtys: self.target_item_qtys@,
            bin_qtys: self.bin_qtys@,
            time_stamp: self.time_stamp,
        }
    }
}

/// Twice the area of the first `k` items, each counted as often as `qtys`
/// says.
pub open spec fn weighted_item_area(items: Seq<(Item, usize)>, qtys: Seq<usize>, k: nat) -> int
    decreases k,
{
    if k == 0 {
        0
    } else {
        weighted_item_area(items, qtys, (k - 1) as nat) + items[k - 1].0@.shape.double_area()
            * qtys[k - 1]
    }
}

/// The position of the first of the first `k` bins whose value is the
/// lowest.
pub open spec fn cheapest_bin(bins: Seq<(Bin, usize)>, k: nat) -> int
    decreases k,
{
    if k <= 1 {
        0
    } else {
        let b = cheapest_bin(bins, (k - 1) as nat);
        if bins[k - 1].0.value < bins[b].0.value {
            k - 1
        } else {
            b
        }
    }
}

impl SolutionView {
    /// The quantities are those of the layouts, within the demands, and the
    /// usage is that of the layouts together.
    pub open spec fn quantities_ok(self) -> bool {
        &&& self.placed_item_qtys.len() == self.target_item_qtys.len()
        &&& forall|i: int|
            0 <= i < self.placed_item_qtys.len() ==> #[trigger] self.placed_item_qtys[i]
                == count_in_layouts(self.layouts, i) && self.placed_item_qtys[i]
                <= self.target_item_qtys[i]
        &&& sum(as_ints(self.target_item_qtys)) <= MAX_TOTAL_QTY
        &&& self.usage.used == sum(used_areas(self.layouts))
        &&& self.usage.total == sum(bin_areas(self.layouts))
    }
}

impl Solution {
    /// Every snapshot is sound and the quantities agree with the snapshots.
    pub open spec fn wf(&self) -> bool {
        &&& forall|l: int|
            0 <= l < self.layout_snapshots@.len() ==> (#[trigger] self.layout_snapshots@[l]).wf()
        &&& self@.quantities_ok()
    }

    /// The solution with the given contents, made at `time_stamp`.
    pub fn new(
        id: usize,
        layout_snapshots: Vec<LayoutSnapshot>,
        usage: Usage,
        placed_item_qtys: Vec<usize>,
        target_item_qtys: Vec<usize>,
        bin_qtys: Vec<usize>,
        time_stamp: u64,
    ) -> (s: Solution)
        ensures
            s.id == id,
            s.layout_snapshots == layout_snapshots,
            s.usage == usage,
            s.placed_item_qtys == placed_item_qtys,
            s.target_item_qtys == target_item_qtys,
            s.bin_qtys == bin_qtys,
            s.time_stamp == time_stamp,
    {
        Solution {
            id,
            layout_snapshots,
            usage,
            placed_item_qtys,
            target_item_qtys,
            bin_qtys,
            time_stamp,
        }
    }

    pub fn layout_snapshots(&self) -> (r: &Vec<LayoutSnapshot>)
        ensures
            r == &self.layout_snapshots,
    {
        &self.layout_snapshots
    }

    /// Whether of every item as many copies are placed as the instance
    /// demands.
    pub fn is_complete(&self, instance: &Instance) -> (r: bool)
        requires
            self.placed_item_qtys@.len() == instance.spec_items().len(),
        ensures
            r == forall|i: int|
                0 <= i < self.placed_item_qtys@.len() ==> #[trigger] self.placed_item_qtys@[i]
                    >= instance.spec_items()[i].1,
    {
        let mut i: usize = 0;
        while i < self.placed_item_qtys.len()
            invariant
                i <= self.placed_item_qtys.len(),
                self.placed_item_qtys@.len() == instance.spec_items().len(),
                forall|j: int|
                    0 <= j < i ==> #[trigger] self.placed_item_qtys@[j]
                        >= instance.spec_items()[j].1,
            decreases self.placed_item_qtys.len() - i,
        {
            if self.placed_item_qtys[i] < instance.item_qty(i) {
                return false;
            }
            i += 1;
        }
        true
    }

    /// The area of the items placed over the area of the items demanded.
    pub fn completeness(&self, instance: &Instance) -> (r: Usage)
        requires
            self.wf(),
            instance.wf(),
            self.placed_item_qtys@.len() == instance.spec_items().len(),
        ensures
            r.used == weighted_item_area(
                instance.spec_items(),
                self.placed_item_qtys@,
                self.placed_item_qtys@.len(),
            ),
            r.total == total_item_area(instance.spec_items(), instance.spec_items().len()),
    {
        let total: u128 = instance.item_area();
        let mut included: u128 = 0;
        let mut i: usize = 0;
        let n: usize = self.placed_item_qtys.len();
        let ghost placed = as_ints(self.placed_item_qtys@);
        proof {
            lemma_sum_pointwise(placed, as_ints(self.target_item_qtys@));
            assert(placed.subrange(0, 0) =~= Seq::<int>::empty());
        }
        while i < n
            invariant
                i <= n,
                n == self.placed_item_qtys@.len(),
                n == instance.spec_items().len(),
                self.wf(),
                instance.wf(),
                placed == as_ints(self.placed_item_qtys@),
                sum(placed) <= MAX_TOTAL_QTY,
                included == weighted_item_area(
                    instance.spec_items(),
                    self.placed_item_qtys@,
                    i as nat,
                ),
                included <= 0x4000_0000_0000_0000 * sum(placed.subrange(0, i as int)),
            decreases n - i,
        {
            let item: &Item = instance.item(i);
            proof {
                lemma_sum_prefix(placed, i as int + 1);
                lemma_sum_prefix(placed, i as int);
                assert(placed.subrange(0, i as int + 1).drop_last() =~= placed.subrange(
                    0,
                    i as int,
                ));
                let a = item@.shape.double_area();
                let q = self.placed_item_qtys@[i as int] as int;
                let s0 = sum(placed.subrange(0, i as int));
                let s1 = sum(placed.subrange(0, i as int + 1));
                assert(instance.spec_items()[i as int].0.wf());
                lemma_polygon_area_bound(item.shape@);
                assert(a * q <= 0x4000_0000_0000_0000 * q) by (nonlinear_arith)
                    requires
                        0 <= a <= 0x4000_0000_0000_0000,
                        0 <= q,
                ;
                assert(0x4000_0000_0000_0000 * s0 + 0x4000_0000_0000_0000 * q
                    == 0x4000_0000_0000_0000 * s1) by (nonlinear_arith)
                    requires
                        s1 == s0 + q,
                ;
                assert(0x4000_0000_0000_0000 * s1 <= 0x4000_0000_0000_0000 * 0x7FFF_FFFF)
                    by (nonlinear_arith)
                    requires
                        s1 <= 0x7FFF_FFFF,
                ;
            }
            proof {
                assert(instance.spec_items()[i as int].0.wf());
                lemma_polygon_area_bound(item.shape@);
                assert(self.placed_item_qtys@[i as int] <= self.target_item_qtys@[i as int]);
                lemma_target_bounded(self.target_item_qtys@, i as int);
                crate::geometry::arith::lemma_mul_bound(
                    item@.shape.double_area(),
                    self.placed_item_qtys@[i as int] as int,
                    0x4000_0000_0000_0000,
                    0x7FFF_FFFF,
                );
            }
            let area: u64 = item.shape.double_area();
            included = included + (area as u128) * (self.placed_item_qtys[i] as u128);
            i += 1;
        }
        Usage { used: included, total }
    }

    pub fn id(&self) -> (r: usize)
        ensures
            r == self.id,
    {
        self.id
    }

    pub fn placed_item_qtys(&self) -> (r: &Vec<usize>)
        ensures
            r == &self.placed_item_qtys,
    {
        &self.placed_item_qtys
    }

    /// For each item, how many copies are demanded and not placed.
    pub fn missing_item_qtys(&self, instance: &Instance) -> (r: Vec<isize>)
        requires
            instance.wf(),
            self.placed_item_qtys@.len() == instance.spec_items().len(),
            forall|i: int|
                0 <= i < self.placed_item_qtys@.len() ==> #[trigger] self.placed_item_qtys@[i]
                    <= MAX_TOTAL_QTY,
        ensures
            r@.len() == self.placed_item_qtys@.len(),
            forall|i: int|
                0 <= i < r@.len() ==> #[trigger] r@[i] == instance.spec_items()[i].1
                    - self.placed_item_qtys@[i],
    {
        let mut r: Vec<isize> = Vec::new();
        let mut i: usize = 0;
        while i < self.placed_item_qtys.len()
            invariant
                i <= self.placed_item_qtys.len(),
                instance.wf(),
                self.placed_item_qtys@.len() == instance.spec_items().len(),
                forall|j: int|
                    0 <= j < self.placed_item_qtys@.len() ==> #[trigger] self.placed_item_qtys@[j]
                        <= MAX_TOTAL_QTY,
                r@.len() == i,
                forall|j: int|
                    0 <= j < i ==> #[trigger] r@[j] == instance.spec_items()[j].1
                        - self.placed_item_qtys@[j],
            decreases self.placed_item_qtys.len() - i,
        {
            let qty: usize = instance.item_qty(i);
            proof {
                lemma_qty_bounded(instance.spec_items(), i as int);
            }
            let placed: usize = self.placed_item_qtys[i];
            r.push(qty as isize - placed as isize);
            i += 1;
        }
        r
    }

    pub fn bin_qtys(&self) -> (r: &Vec<usize>)
        ensures
            r == &self.bin_qtys,
    {
        &self.bin_qtys
    }

    pub fn usage(&self) -> (r: Usage)
        ensures
            r == self.usage,
    {
        self.usage
    }

    pub fn target_item_qtys(&self) -> (r: &Vec<usize>)
        ensures
            r == &self.target_item_qtys,
    {
        &self.target_item_qtys
    }

    /// Whether no solution can use bins of less value: never for a strip,
    /// and for bins where the one layout is in a copy of the bin of the
    /// lowest value.
    pub fn is_best_possible(&self, instance: &Instance) -> (r: bool)
        requires
            match instance {
                Instance::BP(b) => self.layout_snapshots@.len() >= 1 && b.bins@.len() >= 1,
                Instance::SP(_) => true,
            },
        ensures
            r == match instance {
                Instance::BP(b) => self.layout_snapshots@.len() == 1
                    && self.layout_snapshots@[0].bin.id == b.bins@[cheapest_bin(
                    b.bins@,
                    b.bins@.len(),
                )].0.id,
                Instance::SP(_) => false,
            },
    {
        match instance {
            Instance::SP(_) => false,
            Instance::BP(b) => {
                if self.layout_snapshots.len() != 1 {
                    false
                } else {
                    let mut best: usize = 0;
                    let mut k: usize = 1;
                    while k < b.bins.len()
                        invariant
                            1 <= k <= b.bins.len(),
                            best < k,
                            best == cheapest_bin(b.bins@, k as nat),
                        decreases b.bins.len() - k,
                    {
                        if b.bins[k].0.value < b.bins[best].0.value {
                            best = k;
                        }
                        k += 1;
                    }
                    self.layout_snapshots[0].bin.id == b.bins[best].0.id
                }
            },
        }
    }

    pub fn time_stamp(&self) -> (r: u64)
        ensures
            r == self.time_stamp,
    {
        self.time_stamp
    }

    /// How many items are placed, copies counted.
    pub fn n_items_placed(&self) -> (r: usize)
        requires
            self@.quantities_ok(),
        ensures
            r == sum(as_ints(self.placed_item_qtys@)),
    {
        let mut total: usize = 0;
        let mut i: usize = 0;
        let ghost placed = as_ints(self.placed_item_qtys@);
        let ghost target = as_ints(self.target_item_qtys@);
        proof {
            lemma_sum_pointwise(placed, target);
        }
        while i < self.placed_item_qtys.len()
            invariant
                i <= self.placed_item_qtys.len(),
                placed == as_ints(self.placed_item_qtys@),
                sum(placed) <= MAX_TOTAL_QTY,
                total == sum(placed.subrange(0, i as int)),
            decreases self.placed_item_qtys.len() - i,
        {
            proof {
                lemma_sum_prefix(placed, i as int + 1);
                assert(placed.subrange(0, i as int + 1).drop_last() =~= placed.subrange(
                    0,
                    i as int,
                ));
            }
            total = total + self.placed_item_qtys[i];
            i += 1;
        }
        proof {
            assert(placed.subrange(0, i as int) =~= placed);
        }
        total
    }
}

/// Each demand is at most the limit on all of them together.
pub proof fn lemma_target_bounded(target: Seq<usize>, i: int)
    requires
        0 <= i < target.len(),
        sum(as_ints(target)) <= MAX_TOTAL_QTY,
    ensures
        target[i] <= MAX_TOTAL_QTY,
{
    lemma_sum_covers(as_ints(target), i);
}

/// Each demand of an instance is at most the limit on all of them together.
pub proof fn lemma_qty_bounded(items: Seq<(Item, usize)>, i: int)
    requires
        0 <= i < items.len(),
        crate::entities::instances::instance::items_ok(items),
    ensures
        items[i].1 <= MAX_TOTAL_QTY,
{
    crate::entities::instances::instance::lemma_total_qty_monotone(
        items,
        (i + 1) as nat,
        items.len(),
    );
    crate::entities::instances::instance::lemma_total_qty_monotone(items, i as nat, i as nat);
}

} // verus!
