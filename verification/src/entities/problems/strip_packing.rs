//! Strip packing: items are placed into one strip of fixed height.

use vstd::prelude::*;
use crate::collision_detection::hazard::HazardEntity;
use crate::entities::bin::{bin_sketches, Bin, BinError};
use crate::entities::instances::strip_packing::SPInstance;
use crate::entities::item::Item;
use crate::entities::layout::{
    placed_views,
    Layout,
    LayoutSnapshot,
    LayoutView,
    PlaceRejected,
    Usage,
};
use crate::entities::placed_item::{PlacedItem, PlacedItemUID};
use crate::entities::placing_option::PlacingOption;
use crate::entities::problems::bin_packing::{
    demands,
    least_used_layout,
    lemma_demands_sum,
    placed_as,
    rejection_for,
    rejection_of,
    total_usage,
    used_value,
};
use crate::entities::problems::counting::{
    as_ints,
    bin_areas,
    count_in_layouts,
    count_item,
    layout_counts,
    layout_views,
    lemma_count_item_push,
    lemma_count_item_remove,
    snapshot_views,
    used_areas,
};
use crate::entities::problems::problem::{
    LayoutIndex,
    PlaceResult,
    Problem,
    ProblemPrivate,
    ProblemView,
    Rejection,
    RemoveRejected,
};
use crate::entities::solution::Solution;
use crate::geometry::aa_rectangle::AARectangle;
use crate::geometry::simple_polygon::rectangle_corners;
use crate::util::config::CDEConfig;
use crate::util::sums::sum;

verus! {

/// The index of the one layout of a strip packing problem.
pub open spec fn spec_strip_layout_index() -> LayoutIndex {
    LayoutIndex::Existing(0)
}

/// The index of the one layout of a strip packing problem.
pub fn strip_layout_index() -> (r: LayoutIndex)
    ensures
        r == spec_strip_layout_index(),
{
    LayoutIndex::Existing(0)
}

/// A strip packing instance with its strip.
#[derive(Debug)]
pub struct SPProblem {
    pub instance: SPInstance,
    /// The one layout: the strip with the items placed in it.
    pub layouts: Vec<Layout>,
    /// Always empty: a strip is never put away.
    pub empty_layouts: Vec<Layout>,
    pub strip_width: i64,
    /// For each item, how many copies are demanded and not placed.
    pub missing_item_qtys: Vec<isize>,
    /// Always empty: a strip has no stock.
    pub bin_qtys: Vec<usize>,
    pub solution_id_counter: usize,
    pub config: CDEConfig,
}

/// The rectangle of a strip of the given width and height, with its lower
/// left corner at the origin.
pub open spec fn strip_rect(width: i64, height: i64) -> AARectangle {
    AARectangle { x_min: 0, y_min: 0, x_max: width, y_max: height }
}

/// The bin is a strip of the given width and height: its outline is the
/// strip's rectangle and it has neither holes nor zones.
pub open spec fn is_strip(bin: Bin, width: i64, height: i64) -> bool {
    &&& bin_sketches(bin).len() == 1
    &&& bin_sketches(bin)[0].1.points == rectangle_corners(strip_rect(width, height))
    &&& bin_sketches(bin)[0].1.bbox.x_max == width
}

/// The layout is a sound layout of a strip of the given measures, and every
/// item in it is a copy of one of the items.
pub open spec fn strip_layout_fits(
    l: Layout,
    n_items: int,
    width: i64,
    height: i64,
    config: CDEConfig,
) -> bool {
    &&& l.wf()
    &&& l.cde.config == config
    &&& is_strip(l.bin, width, height)
    &&& forall|k: int|
        0 <= k < l.placed_items@.len() ==> (#[trigger] l.placed_items@[k]).item_id < n_items
}

/// The snapshot is a sound snapshot of a strip of the given height, and
/// every item in it is a copy of one of the items.
pub open spec fn strip_snapshot_fits(s: LayoutSnapshot, n_items: int, height: i64) -> bool {
    &&& s.wf()
    &&& is_strip(s.bin, bin_sketches(s.bin)[0].1.bbox.x_max, height)
    &&& forall|k: int|
        0 <= k < s.placed_items@.len() ==> (#[trigger] s.placed_items@[k]).item_id < n_items
}

/// Why the strip was not given another width.
#[derive(Clone, Copy, Debug, PartialEq, Eq, Structural)]
pub enum StripRejected {
    /// The strip of the width asked is no bin.
    Strip(BinError),
    /// An item does not fit into the strip of the width asked.
    Item(Rejection),
}

/// Why a strip of the given measures is no bin, if it is none.
pub open spec fn strip_defect(width: i64, height: i64) -> Option<BinError> {
    if width <= 0 {
        Some(BinError::NoArea)
    } else {
        match crate::geometry::simple_polygon::polygon_defect(
            rectangle_corners(strip_rect(width, height)),
        ) {
            Some(s) => Some(BinError::Shape(s)),
            None => None,
        }
    }
}

/// The problem is one of the instance's items in a strip of the given
/// width.
pub open spec fn strip_problem_of(
    p: SPProblem,
    instance: SPInstance,
    width: i64,
    config: CDEConfig,
) -> bool {
    &&& Problem::wf(&p)
    &&& p.config == config
    &&& p.strip_width == width
    &&& p.instance.strip_height == instance.strip_height
    &&& p.instance.items@.len() == instance.items@.len()
    &&& forall|i: int|
        0 <= i < instance.items@.len() ==> (#[trigger] p.instance.items@[i]).0@
            == instance.items@[i].0@ && p.instance.items@[i].1 == instance.items@[i].1
}

/// The option that places a copy of the placed item's item where the
/// placed item lies.
pub open spec fn refill_option(placed: PlacedItem) -> PlacingOption {
    PlacingOption {
        layout_index: LayoutIndex::Existing(0),
        item_id: placed.item_id,
        transform: placed.d_transf.spec_compose(),
        d_transform: placed.d_transf.spec_compose().spec_decompose(),
    }
}

/// Placing the items of the problem `before` again into a strip of the
/// given width has stopped for the reason given: the problem `p` holds the
/// first of them in such a strip, each where it lay, and rejects the next.
pub open spec fn refill_stopped(p: SPProblem, before: SPProblem, width: i64, x: Rejection) -> bool {
    let k = p.layouts@[0].placed_items@.len() as int;
    let placed = before.layouts@[0].placed_items@;
    &&& strip_problem_of(p, before.instance, width, before.config)
    &&& k < placed.len()
    &&& p.layouts@[0].next_uid == k
    &&& forall|j: int|
        0 <= j < k ==> (#[trigger] p.layouts@[0].placed_items@[j]).item_id == placed[j].item_id
            && p.layouts@[0].placed_items@[j].d_transf == placed[j].d_transf
    &&& p.spec_rejection(refill_option(placed[k])) == Some(x)
}

/// The two layouts hold copies of the same items, moved alike, in the same
/// order.
pub open spec fn same_placements(a: Layout, b: Layout) -> bool {
    &&& a.placed_items@.len() == b.placed_items@.len()
    &&& forall|j: int|
        0 <= j < a.placed_items@.len() ==> (#[trigger] a.placed_items@[j]).item_id
            == b.placed_items@[j].item_id && a.placed_items@[j].d_transf
            == b.placed_items@[j].d_transf
}

/// Over one layout, the copies of an item are those of that layout.
pub proof fn lemma_count_single(layouts: Seq<LayoutView>, t: int)
    requires
        layouts.len() == 1,
    ensures
        count_in_layouts(layouts, t) == count_item(layouts[0].placed, t),
{
    let c = layout_counts(layouts, t);
    assert(c.drop_last() =~= Seq::<int>::empty());
    assert(sum(c.drop_last()) == 0);
}

impl SPProblem {
    /// Why the proposal is rejected, if it is.
    pub open spec fn spec_rejection(&self, i_opt: PlacingOption) -> Option<Rejection> {
        let item_id = i_opt.item_id as int;
        if item_id >= self.instance.items@.len() {
            Some(Rejection::InvalidInput)
        } else if i_opt.layout_index != spec_strip_layout_index() {
            Some(Rejection::InvalidInput)
        } else if self.missing_item_qtys@[item_id] <= 0 {
            Some(Rejection::QuantityExhausted)
        } else {
            rejection_of(
                self.layouts@[0].spec_rejects(self.instance.items@[item_id].0, i_opt.d_transform),
            )
        }
    }

    /// Nothing that can be seen or used of the problem has changed.
    pub open spec fn same_state(&self, after: &SPProblem) -> bool {
        &&& after.instance == self.instance
        &&& after.config == self.config
        &&& after.strip_width == self.strip_width
        &&& after.layouts@ == self.layouts@
        &&& after.empty_layouts@ == self.empty_layouts@
        &&& after.missing_item_qtys@ == self.missing_item_qtys@
        &&& after.bin_qtys@ == self.bin_qtys@
        &&& after.solution_id_counter == self.solution_id_counter
    }

    /// The problem of the instance with a strip of the given width and no
    /// item placed, unless the strip is no bin.
    pub fn new(instance: SPInstance, strip_width: i64, config: CDEConfig) -> (r: Result<
        SPProblem,
        BinError,
    >)
        requires
            instance.wf(),
            config.wf(),
        ensures
            match r {
                Ok(p) => {
                    &&& strip_defect(strip_width, instance.strip_height).is_none()
                    &&& strip_width > 0
                    &&& crate::geometry::simple_polygon::polygon_defect(
                        rectangle_corners(strip_rect(strip_width, instance.strip_height)),
                    ).is_none()
                    &&& Problem::wf(&p)
                    &&& p.instance == instance
                    &&& p.config == config
                    &&& p.strip_width == strip_width
                    &&& p.layouts@[0].placed_items@.len() == 0
                    &&& p.layouts@[0].next_uid == 0
                    &&& p.layouts@[0].bin.pretransform
                        == crate::geometry::transformation::Transformation::spec_empty()
                    &&& p.solution_id_counter == 0
                    &&& forall|i: int|
                        0 <= i < instance.items@.len() ==> #[trigger] p.missing_item_qtys@[i]
                            == instance.items@[i].1
                },
                Err(e) => strip_defect(strip_width, instance.strip_height) == Some(e),
            },
    {
        if strip_width <= 0 {
            return Err(BinError::NoArea);
        }
        let rect: AARectangle = AARectangle {
            x_min: 0,
            y_min: 0,
            x_max: strip_width,
            y_max: instance.strip_height,
        };
        let bin: Bin = match Bin::from_strip(0, &rect) {
            Ok(b) => b,
            Err(e) => {
                return Err(e);
            },
        };
        proof {
            lemma_strip_sketches(bin);
            let corners = rectangle_corners(rect);
            assert(bin.outer.wf());
            assert(crate::geometry::outline::is_bbox_of(corners, 4, bin.outer.bbox));
            assert(bin.outer.bbox.spec_collides_with(corners[1]));
            assert(corners[0].0 == 0 && corners[1].0 == strip_width && corners[2].0 == strip_width
                && corners[3].0 == 0);
        }
        let mut missing: Vec<isize> = Vec::new();
        let mut i: usize = 0;
        while i < instance.items.len()
            invariant
                i <= instance.items.len(),
                instance.wf(),
                missing@.len() == i,
                forall|j: int| 0 <= j < i ==> #[trigger] missing@[j] == instance.items@[j].1,
            decreases instance.items.len() - i,
        {
            proof {
                crate::entities::solution::lemma_qty_bounded(instance.items@, i as int);
            }
            missing.push(instance.items[i].1 as isize);
            i += 1;
        }
        let layout: Layout = Layout::new(0, bin, config);
        let mut layouts: Vec<Layout> = Vec::new();
        layouts.push(layout);
        let p: SPProblem = SPProblem {
            instance,
            layouts,
            empty_layouts: Vec::new(),
            strip_width,
            missing_item_qtys: missing,
            bin_qtys: Vec::new(),
            solution_id_counter: 0,
            config,
        };
        proof {
            let views = layout_views(p.layouts@);
            assert forall|t: int| 0 <= t < p.instance.items@.len() implies count_in_layouts(
                views,
                t,
            ) == 0 by {
                lemma_count_single(views, t);
                assert(crate::entities::problems::counting::item_hits(views[0].placed, t)
                    =~= Seq::<int>::empty());
            }
        }
        Ok(p)
    }

    /// The item with the given identifier.
    pub fn item(&self, item_id: usize) -> (r: &Item)
        requires
            item_id < self.instance.items@.len(),
        ensures
            *r == self.instance.items@[item_id as int].0,
    {
        &self.instance.items[item_id].0
    }

    /// Gives the strip another width: the strip is replaced by one of the
    /// width asked, and the items are placed into it again, each where it
    /// lay, in the order in which they were placed. The items get new
    /// identifiers: their positions in that order. Nothing changes where
    /// the new strip is no bin or an item does not fit into it.
    pub fn change_strip_width(&mut self, new_width: i64) -> (r: Result<(), StripRejected>)
        requires
            Problem::wf(&*old(self)),
        ensures
            Problem::wf(&*final(self)),
            final(self).solution_id_counter == old(self).solution_id_counter,
            final(self).config == old(self).config,
            final(self).instance.strip_height == old(self).instance.strip_height,
            final(self).missing_item_qtys@ == old(self).missing_item_qtys@,
            same_placements(final(self).layouts@[0], old(self).layouts@[0]),
            match r {
                Ok(_) => {
                    &&& final(self).strip_width == new_width
                    &&& strip_defect(new_width, old(self).instance.strip_height).is_none()
                    &&& forall|j: int|
                        0 <= j < final(self).layouts@[0].placed_items@.len() ==> (
                        #[trigger] final(self).layouts@[0].placed_items@[j]).uid == PlacedItemUID(
                            j as usize,
                        )
                },
                Err(StripRejected::Strip(e)) => *final(self) == *old(self) && strip_defect(
                    new_width,
                    old(self).instance.strip_height,
                ) == Some(e),
                Err(StripRejected::Item(x)) => {
                    &&& *final(self) == *old(self)
                    &&& strip_defect(new_width, old(self).instance.strip_height).is_none()
                    &&& exists|p: SPProblem| #[trigger] refill_stopped(p, *old(self), new_width, x)
                },
            },
    {
        let mut wider: SPProblem = match SPProblem::new(
            self.instance.clone_instance(),
            new_width,
            self.config,
        ) {
            Ok(p) => p,
            Err(e) => {
                return Err(StripRejected::Strip(e));
            },
        };
        let n: usize = self.layouts[0].placed_items.len();
        let mut k: usize = 0;
        while k < n
            invariant
                k <= n,
                Problem::wf(&*self),
                *self == *old(self),
                n == self.layouts@[0].placed_items@.len(),
                Problem::wf(&wider),
                wider.config == self.config,
                wider.strip_width == new_width,
                wider.solution_id_counter == 0,
                wider.instance.strip_height == self.instance.strip_height,
                wider.instance.items@.len() == self.instance.items@.len(),
                forall|t: int|
                    0 <= t < self.instance.items@.len() ==> (#[trigger] wider.instance.items@[t]).1
                        == self.instance.items@[t].1 && wider.instance.items@[t].0@
                        == self.instance.items@[t].0@,
                wider.layouts@[0].placed_items@.len() == k,
                wider.layouts@[0].next_uid == k,
                strip_defect(new_width, self.instance.strip_height).is_none(),
                forall|j: int|
                    0 <= j < k ==> (#[trigger] wider.layouts@[0].placed_items@[j]).item_id
                        == self.layouts@[0].placed_items@[j].item_id
                        && wider.layouts@[0].placed_items@[j].d_transf
                        == self.layouts@[0].placed_items@[j].d_transf
                        && wider.layouts@[0].placed_items@[j].uid == PlacedItemUID(j as usize),
            decreases n - k,
        {
            let placed: &PlacedItem = &self.layouts[0].placed_items[k];
            let opt: PlacingOption = PlacingOption::new(
                LayoutIndex::Existing(0),
                placed.item_id,
                placed.d_transf.compose(),
            );
            let ghost before = wider;
            match wider.place_item(&opt) {
                PlaceResult::Placed(_, _) => {
                    proof {
                        let l0 = before.layouts@[0];
                        let l1 = wider.layouts@[0];
                        assert forall|j: int| 0 <= j < k + 1 implies (
                        #[trigger] l1.placed_items@[j]).item_id
                            == self.layouts@[0].placed_items@[j].item_id && l1.placed_items@[j].d_transf
                            == self.layouts@[0].placed_items@[j].d_transf && l1.placed_items@[j].uid
                            == PlacedItemUID(j as usize) by {
                            if j < k {
                                assert(l1.placed_items@[j] == l1.placed_items@.drop_last()[j]);
                            }
                        }
                    }
                },
                PlaceResult::Rejected(r) => {
                    proof {
                        assert(opt == refill_option(self.layouts@[0].placed_items@[k as int]));
                        assert(refill_stopped(wider, *self, new_width, r));
                    }
                    return Err(StripRejected::Item(r));
                },
            }
            k += 1;
        }
        proof {
            let v0 = layout_views(self.layouts@);
            let v1 = layout_views(wider.layouts@);
            assert(wider.missing_item_qtys@ =~= self.missing_item_qtys@) by {
                assert forall|t: int| 0 <= t < self.missing_item_qtys@.len() implies wider.missing_item_qtys@[t]
                    == self.missing_item_qtys@[t] by {
                    lemma_count_single(v0, t);
                    lemma_count_single(v1, t);
                    assert(crate::entities::problems::counting::item_hits(v1[0].placed, t)
                        =~= crate::entities::problems::counting::item_hits(v0[0].placed, t));
                    assert(self.missing_item_qtys@[t] + count_in_layouts(v0, t)
                        == self.instance.items@[t].1);
                    assert(wider.missing_item_qtys@[t] + count_in_layouts(v1, t)
                        == wider.instance.items@[t].1);
                }
            }
        }
        wider.solution_id_counter = self.solution_id_counter;
        *self = wider;
        Ok(())
    }

    /// The strip with the items placed in it.
    pub fn layout(&self) -> (r: &Layout)
        requires
            Problem::wf(self),
        ensures
            *r == self.layouts@[0],
    {
        &self.layouts[0]
    }
}

/// A bin made of a rectangle alone has one sketch, that of its outline.
pub proof fn lemma_strip_sketches(bin: Bin)
    requires
        bin.holes@.len() == 0,
        bin.quality_zones@.len() == 0,
    ensures
        bin_sketches(bin).len() == 1,
        bin_sketches(bin)[0] == (HazardEntity::BinExterior, bin.outer@),
{
    assert(crate::entities::bin::hole_sketches(bin.holes@) =~= Seq::empty());
    assert(crate::entities::bin::all_zone_sketches(bin.quality_zones@, 0) =~= Seq::empty());
}

/// The problem stays consistent where the strip gets one more item, a copy
/// of the item `item_id`, and one copy less is missing.
pub proof fn lemma_strip_grew_keeps_wf(before: SPProblem, after: SPProblem, item_id: int)
    requires
        Problem::wf(&before),
        0 <= item_id < before.instance.items@.len(),
        before.missing_item_qtys@[item_id] > 0,
        after.instance == before.instance,
        after.config == before.config,
        after.strip_width == before.strip_width,
        after.empty_layouts@ == before.empty_layouts@,
        after.bin_qtys@ == before.bin_qtys@,
        after.layouts@.len() == 1,
        after.layouts@[0].wf(),
        after.layouts@[0].bin == before.layouts@[0].bin,
        after.layouts@[0].cde.config == before.layouts@[0].cde.config,
        after.layouts@[0].placed_items@.len() == before.layouts@[0].placed_items@.len() + 1,
        after.layouts@[0].placed_items@.drop_last() == before.layouts@[0].placed_items@,
        after.layouts@[0].placed_items@.last().item_id == item_id,
        after.missing_item_qtys@ == before.missing_item_qtys@.update(
            item_id,
            (before.missing_item_qtys@[item_id] - 1) as isize,
        ),
    ensures
        Problem::wf(&after),
{
    let v0 = layout_views(before.layouts@);
    let v1 = layout_views(after.layouts@);
    let l0 = before.layouts@[0];
    let l1 = after.layouts@[0];
    assert(placed_views(l1.placed_items@) =~= placed_views(l0.placed_items@).push(
        l1.placed_items@.last()@,
    ));
    assert forall|k: int| 0 <= k < l1.placed_items@.len() implies (#[trigger] l1.placed_items@[k]).item_id
        < before.instance.items@.len() by {
        if k < l0.placed_items@.len() {
            assert(l1.placed_items@[k] == l1.placed_items@.drop_last()[k]);
        }
    }
    assert forall|t: int| 0 <= t < after.instance.items@.len() implies (
    #[trigger] after.missing_item_qtys@[t]) + count_in_layouts(v1, t)
        == after.instance.items@[t].1 && after.missing_item_qtys@[t] >= 0 by {
        lemma_count_single(v0, t);
        lemma_count_single(v1, t);
        lemma_count_item_push(placed_views(l0.placed_items@), l1.placed_items@.last()@, t);
        assert(before.missing_item_qtys@[t] + count_in_layouts(v0, t)
            == before.instance.items@[t].1);
    }
}

/// The problem stays consistent where the strip loses one item and one
/// copy more is missing.
pub proof fn lemma_strip_shrank_keeps_wf(before: SPProblem, after: SPProblem, k: int)
    requires
        Problem::wf(&before),
        0 <= k < before.layouts@[0].placed_items@.len(),
        after.instance == before.instance,
        after.config == before.config,
        after.strip_width == before.strip_width,
        after.empty_layouts@ == before.empty_layouts@,
        after.bin_qtys@ == before.bin_qtys@,
        after.layouts@.len() == 1,
        after.layouts@[0].wf(),
        after.layouts@[0].bin == before.layouts@[0].bin,
        after.layouts@[0].cde.config == before.layouts@[0].cde.config,
        after.layouts@[0].placed_items@ == before.layouts@[0].placed_items@.remove(k),
        before.missing_item_qtys@[before.layouts@[0].placed_items@[k].item_id as int]
            < isize::MAX,
        after.missing_item_qtys@ == before.missing_item_qtys@.update(
            before.layouts@[0].placed_items@[k].item_id as int,
            (before.missing_item_qtys@[before.layouts@[0].placed_items@[k].item_id as int]
                + 1) as isize,
        ),
    ensures
        Problem::wf(&after),
{
    let v0 = layout_views(before.layouts@);
    let v1 = layout_views(after.layouts@);
    let l0 = before.layouts@[0];
    let l1 = after.layouts@[0];
    assert(placed_views(l1.placed_items@) =~= placed_views(l0.placed_items@).remove(k));
    assert(l0.placed_items@[k].item_id < before.instance.items@.len());
    assert forall|j: int| 0 <= j < l1.placed_items@.len() implies (#[trigger] l1.placed_items@[j]).item_id
        < before.instance.items@.len() by {
        if j < k {
            assert(l1.placed_items@[j] == l0.placed_items@[j]);
        } else {
            assert(l1.placed_items@[j] == l0.placed_items@[j + 1]);
        }
    }
    assert forall|t: int| 0 <= t < after.instance.items@.len() implies (
    #[trigger] after.missing_item_qtys@[t]) + count_in_layouts(v1, t)
        == after.instance.items@[t].1 && after.missing_item_qtys@[t] >= 0 by {
        lemma_count_single(v0, t);
        lemma_count_single(v1, t);
        lemma_count_item_remove(placed_views(l0.placed_items@), k, t);
        assert(before.missing_item_qtys@[t] + count_in_layouts(v0, t)
            == before.instance.items@[t].1);
    }
}

impl ProblemPrivate for SPProblem {
    open spec fn solution_counter(&self) -> usize {
        self.solution_id_counter
    }

    open spec fn observable(&self) -> ProblemView {
        ProblemView {
            layouts: layout_views(self.layouts@),
            missing_item_qtys: self.missing_item_qtys@,
            bin_qtys: self.bin_qtys@,
        }
    }

    fn next_solution_id(&mut self) -> (id: usize) {
        self.solution_id_counter = self.solution_id_counter + 1;
        self.solution_id_counter
    }

    fn register_included_item(&mut self, item_id: usize) {
        let m: isize = self.missing_item_qtys[item_id];
        self.missing_item_qtys.set(item_id, m - 1);
    }

    fn unregister_included_item(&mut self, item_id: usize) {
        let m: isize = self.missing_item_qtys[item_id];
        self.missing_item_qtys.set(item_id, m + 1);
    }
}

impl Problem for SPProblem {
    open spec fn wf(&self) -> bool {
        let views = layout_views(self.layouts@);
        &&& self.instance.wf()
        &&& self.config.wf()
        &&& self.layouts@.len() == 1
        &&& self.empty_layouts@.len() == 0
        &&& self.bin_qtys@.len() == 0
        &&& strip_layout_fits(
            self.layouts@[0],
            self.instance.items@.len() as int,
            self.strip_width,
            self.instance.strip_height,
            self.config,
        )
        &&& self.missing_item_qtys@.len() == self.instance.items@.len()
        &&& forall|t: int|
            0 <= t < self.instance.items@.len() ==> (#[trigger] self.missing_item_qtys@[t])
                + count_in_layouts(views, t) == self.instance.items@[t].1
                && self.missing_item_qtys@[t] >= 0
    }

    open spec fn place_spec(&self, i_opt: PlacingOption, r: PlaceResult, after: &Self) -> bool {
        let item_id = i_opt.item_id as int;
        match r {
            PlaceResult::Rejected(e) => self.spec_rejection(i_opt) == Some(e) && self.same_state(
                after,
            ),
            PlaceResult::Placed(index, uid) => {
                &&& self.spec_rejection(i_opt).is_none()
                &&& index == spec_strip_layout_index()
                &&& after.instance == self.instance
                &&& after.config == self.config
                &&& after.strip_width == self.strip_width
                &&& after.solution_id_counter == self.solution_id_counter
                &&& after.empty_layouts@ == self.empty_layouts@
                &&& after.bin_qtys@ == self.bin_qtys@
                &&& after.missing_item_qtys@ == self.missing_item_qtys@.update(
                    item_id,
                    (self.missing_item_qtys@[item_id] - 1) as isize,
                )
                &&& after.layouts@.len() == 1
                &&& placed_as(
                    self.layouts@[0],
                    after.layouts@[0],
                    self.instance.items@[item_id].0,
                    i_opt.d_transform,
                    uid,
                )
            },
        }
    }

    open spec fn remove_spec(
        &self,
        layout_index: LayoutIndex,
        pi_uid: PlacedItemUID,
        r: Result<PlacedItem, RemoveRejected>,
        after: &Self,
    ) -> bool {
        let layout = self.layouts@[0];
        match r {
            Err(RemoveRejected::UnknownLayout) => layout_index != spec_strip_layout_index()
                && self.same_state(after),
            Err(RemoveRejected::UnknownItem) => {
                &&& layout_index == spec_strip_layout_index()
                &&& forall|k: int|
                    0 <= k < layout.placed_items@.len() ==> (#[trigger] layout.placed_items@[k]).uid
                        != pi_uid
                &&& self.same_state(after)
            },
            Ok(p) => {
                &&& layout_index == spec_strip_layout_index()
                &&& after.instance == self.instance
                &&& after.config == self.config
                &&& after.strip_width == self.strip_width
                &&& after.solution_id_counter == self.solution_id_counter
                &&& after.empty_layouts@ == self.empty_layouts@
                &&& after.bin_qtys@ == self.bin_qtys@
                &&& after.layouts@.len() == 1
                &&& after.layouts@[0].bin == layout.bin
                &&& exists|k: int|
                    {
                        &&& 0 <= k < layout.placed_items@.len()
                        &&& (#[trigger] layout.placed_items@[k]).uid == pi_uid
                        &&& p == layout.placed_items@[k]
                        &&& after.layouts@[0].placed_items@ == layout.placed_items@.remove(k)
                        &&& after.missing_item_qtys@ == self.missing_item_qtys@.update(
                            p.item_id as int,
                            (self.missing_item_qtys@[p.item_id as int] + 1) as isize,
                        )
                    }
            },
        }
    }

    open spec fn saved_as(&self, solution: &Solution) -> bool {
        &&& snapshot_views(solution.layout_snapshots@) == layout_views(self.layouts@)
        &&& solution.placed_item_qtys@.len() == self.instance.items@.len()
        &&& solution.target_item_qtys@.len() == self.instance.items@.len()
        &&& forall|t: int|
            0 <= t < self.instance.items@.len() ==> {
                &&& #[trigger] solution.placed_item_qtys@[t] == self.instance.items@[t].1
                    - self.missing_item_qtys@[t]
                &&& solution.target_item_qtys@[t] == self.instance.items@[t].1
            }
        &&& solution.bin_qtys@ == self.bin_qtys@
    }

    open spec fn fits(&self, solution: &Solution) -> bool {
        &&& solution.wf()
        &&& solution.layout_snapshots@.len() == 1
        &&& strip_snapshot_fits(
            solution.layout_snapshots@[0],
            self.instance.items@.len() as int,
            self.instance.strip_height,
        )
        &&& solution.target_item_qtys@.len() == self.instance.items@.len()
        &&& forall|t: int|
            0 <= t < self.instance.items@.len() ==> #[trigger] solution.target_item_qtys@[t]
                == self.instance.items@[t].1
        &&& solution.bin_qtys@.len() == 0
    }

    open spec fn same_instance(&self, other: &Self) -> bool {
        other.instance == self.instance && other.config == self.config
    }

    open spec fn spec_layouts(&self) -> Seq<Layout> {
        self.layouts@
    }

    open spec fn spec_empty_layouts(&self) -> Seq<Layout> {
        self.empty_layouts@
    }

    fn place_item(&mut self, i_opt: &PlacingOption) -> (r: PlaceResult) {
        let item_id: usize = i_opt.item_id;
        if item_id >= self.instance.items.len() {
            return PlaceResult::Rejected(Rejection::InvalidInput);
        }
        match i_opt.layout_index {
            LayoutIndex::Existing(i) => {
                if i != 0 {
                    return PlaceResult::Rejected(Rejection::InvalidInput);
                }
            },
            LayoutIndex::Empty(_) => {
                return PlaceResult::Rejected(Rejection::InvalidInput);
            },
        }
        if self.missing_item_qtys[item_id] <= 0 {
            return PlaceResult::Rejected(Rejection::QuantityExhausted);
        }
        let ghost before = *self;
        assert(self.instance.items@[item_id as int].0.wf());
        let res: Result<PlacedItemUID, PlaceRejected> = self.layouts[0].place(
            &self.instance.items[item_id].0,
            i_opt.d_transform,
        );
        match res {
            Err(e) => {
                proof {
                    assert(self.layouts@[0] == before.layouts@[0]);
                    assert(self.layouts@ =~= before.layouts@);
                }
                PlaceResult::Rejected(rejection_for(e))
            },
            Ok(uid) => {
                let m: isize = self.missing_item_qtys[item_id];
                self.missing_item_qtys.set(item_id, m - 1);
                proof {
                    lemma_strip_grew_keeps_wf(before, *self, item_id as int);
                }
                PlaceResult::Placed(LayoutIndex::Existing(0), uid)
            },
        }
    }

    fn remove_item(&mut self, layout_index: LayoutIndex, pi_uid: &PlacedItemUID) -> (r: Result<
        PlacedItem,
        RemoveRejected,
    >) {
        match layout_index {
            LayoutIndex::Existing(i) => {
                if i != 0 {
                    return Err(RemoveRejected::UnknownLayout);
                }
            },
            LayoutIndex::Empty(_) => {
                return Err(RemoveRejected::UnknownLayout);
            },
        }
        let ghost before = *self;
        let res: Option<PlacedItem> = self.layouts[0].remove(*pi_uid);
        match res {
            None => {
                proof {
                    assert(self.layouts@[0] == before.layouts@[0]);
                    assert(self.layouts@ =~= before.layouts@);
                }
                Err(RemoveRejected::UnknownItem)
            },
            Some(p) => {
                let ghost k = choose|k: int|
                    0 <= k < before.layouts@[0].placed_items@.len() && (
                    #[trigger] before.layouts@[0].placed_items@[k]).uid == *pi_uid && p
                        == before.layouts@[0].placed_items@[k] && self.layouts@[0].placed_items@
                        == before.layouts@[0].placed_items@.remove(k);
                let item_id: usize = p.item_id;
                proof {
                    assert(before.layouts@[0].placed_items@[k].item_id
                        < before.instance.items@.len());
                    crate::entities::problems::counting::lemma_count_in_layouts_nonneg(
                        layout_views(before.layouts@),
                        item_id as int,
                    );
                    crate::entities::solution::lemma_qty_bounded(
                        before.instance.items@,
                        item_id as int,
                    );
                    assert(before.missing_item_qtys@[item_id as int] + count_in_layouts(
                        layout_views(before.layouts@),
                        item_id as int,
                    ) == before.instance.items@[item_id as int].1);
                }
                let m: isize = self.missing_item_qtys[item_id];
                self.missing_item_qtys.set(item_id, m + 1);
                proof {
                    lemma_strip_shrank_keeps_wf(before, *self, k);
                    assert(before.layouts@[0].placed_items@[k].uid == *pi_uid);
                }
                Ok(p)
            },
        }
    }

    fn create_solution(&mut self, old_solution: &Option<Solution>, time_stamp: u64) -> (s:
        Solution) {
        self.solution_id_counter = self.solution_id_counter + 1;
        let id: usize = self.solution_id_counter;
        let snap: LayoutSnapshot = self.layouts[0].create_snapshot();
        proof {
            let layout = self.layouts@[0];
            assert(placed_views(snap.placed_items@) == placed_views(layout.placed_items@));
            assert(snap.placed_items@.len() == placed_views(snap.placed_items@).len());
            assert(layout.placed_items@.len() == placed_views(layout.placed_items@).len());
            assert forall|k: int| 0 <= k < snap.placed_items@.len() implies (
            #[trigger] snap.placed_items@[k]).item_id < self.instance.items@.len() by {
                assert(placed_views(snap.placed_items@)[k] == snap.placed_items@[k]@);
                assert(placed_views(layout.placed_items@)[k] == layout.placed_items@[k]@);
                assert(layout.placed_items@[k].item_id < self.instance.items@.len());
            }
        }
        let mut snapshots: Vec<LayoutSnapshot> = Vec::new();
        snapshots.push(snap);
        let usage: Usage = total_usage(&self.layouts);
        let placed: Vec<usize> = self.included_item_qtys();
        let mut target: Vec<usize> = Vec::new();
        let mut t: usize = 0;
        while t < self.instance.items.len()
            invariant
                t <= self.instance.items.len(),
                target@.len() == t,
                forall|j: int| 0 <= j < t ==> #[trigger] target@[j] == self.instance.items@[j].1,
            decreases self.instance.items.len() - t,
        {
            target.push(self.instance.items[t].1);
            t += 1;
        }
        let bin_qtys: Vec<usize> = Vec::new();
        proof {
            assert(snapshot_views(snapshots@) =~= layout_views(self.layouts@));
            assert(as_ints(target@) =~= demands(self.instance.items@));
            lemma_demands_sum(self.instance.items@, self.instance.items@.len());
            assert(demands(self.instance.items@).subrange(0, self.instance.items@.len() as int)
                =~= demands(self.instance.items@));
            assert(bin_qtys@ =~= self.bin_qtys@);
        }
        Solution::new(id, snapshots, usage, placed, target, bin_qtys, time_stamp)
    }

    fn restore_to_solution(&mut self, solution: &Solution) {
        let snap: &LayoutSnapshot = &solution.layout_snapshots[0];
        let layout: Layout = Layout::from_snapshot(snap, self.config);
        proof {
            assert(placed_views(snap.placed_items@) == placed_views(layout.placed_items@));
            assert(snap.placed_items@.len() == placed_views(snap.placed_items@).len());
            assert(layout.placed_items@.len() == placed_views(layout.placed_items@).len());
            assert forall|k: int| 0 <= k < layout.placed_items@.len() implies (
            #[trigger] layout.placed_items@[k]).item_id < self.instance.items@.len() by {
                assert(placed_views(snap.placed_items@)[k] == snap.placed_items@[k]@);
                assert(placed_views(layout.placed_items@)[k] == layout.placed_items@[k]@);
                assert(snap.placed_items@[k].item_id < self.instance.items@.len());
            }
        }
        let width: i64 = layout.bin.outer.bbox.x_max;
        proof {
            crate::entities::layout::lemma_layout_wf(layout);
            assert(bin_sketches(layout.bin)[0] == (HazardEntity::BinExterior, layout.bin.outer@));
        }
        let mut missing: Vec<isize> = Vec::new();
        let mut t: usize = 0;
        while t < self.instance.items.len()
            invariant
                t <= self.instance.items.len(),
                Problem::wf(&*self),
                self.fits(solution),
                missing@.len() == t,
                forall|j: int|
                    0 <= j < t ==> #[trigger] missing@[j] == self.instance.items@[j].1
                        - solution.placed_item_qtys@[j] && missing@[j] >= 0,
            decreases self.instance.items.len() - t,
        {
            proof {
                crate::entities::solution::lemma_qty_bounded(self.instance.items@, t as int);
                assert(solution.placed_item_qtys@[t as int] <= solution.target_item_qtys@[t as int]);
            }
            missing.push(self.instance.items[t].1 as isize - solution.placed_item_qtys[t] as isize);
            t += 1;
        }
        let mut layouts: Vec<Layout> = Vec::new();
        layouts.push(layout);
        proof {
            assert(layout_views(layouts@) =~= snapshot_views(solution.layout_snapshots@));
            assert(solution.bin_qtys@ =~= self.bin_qtys@);
        }
        self.layouts = layouts;
        self.missing_item_qtys = missing;
        self.strip_width = width;
    }

    fn layouts(&self) -> (r: &Vec<Layout>) {
        &self.layouts
    }

    fn empty_layouts(&self) -> (r: &Vec<Layout>) {
        &self.empty_layouts
    }

    fn missing_item_qtys(&self) -> (r: &Vec<isize>) {
        &self.missing_item_qtys
    }

    fn bin_qtys(&self) -> (r: &Vec<usize>) {
        &self.bin_qtys
    }

    /// The share of the strip's area that items cover.
    fn usage(&self) -> (r: Usage)
        ensures
            r == self.layouts@[0]@.usage,
            r.used <= r.total,
            r.total > 0,
    {
        proof {
            let views = layout_views(self.layouts@);
            assert(used_areas(views).drop_last() =~= Seq::<int>::empty());
            assert(bin_areas(views).drop_last() =~= Seq::<int>::empty());
            assert(sum(used_areas(views).drop_last()) == 0);
            assert(sum(bin_areas(views).drop_last()) == 0);
        }
        self.layouts[0].usage()
    }

    /// For each item, how many copies are placed.
    fn included_item_qtys(&self) -> (r: Vec<usize>)
        ensures
            forall|i: int|
                0 <= i < r@.len() ==> #[trigger] r@[i] == self.instance.items@[i].1
                    - self.missing_item_qtys@[i],
    {
        let mut r: Vec<usize> = Vec::new();
        let mut i: usize = 0;
        while i < self.missing_item_qtys.len()
            invariant
                i <= self.missing_item_qtys.len(),
                Problem::wf(self),
                r@.len() == i,
                forall|j: int|
                    0 <= j < i ==> #[trigger] r@[j] == self.instance.items@[j].1
                        - self.missing_item_qtys@[j] && r@[j] == count_in_layouts(
                        layout_views(self.layouts@),
                        j,
                    ),
            decreases self.missing_item_qtys.len() - i,
        {
            proof {
                crate::entities::solution::lemma_qty_bounded(self.instance.items@, i as int);
                crate::entities::problems::counting::lemma_count_in_layouts_nonneg(
                    layout_views(self.layouts@),
                    i as int,
                );
            }
            r.push((self.instance.items[i].1 as isize - self.missing_item_qtys[i]) as usize);
            i += 1;
        }
        r
    }

    fn used_bin_value(&self) -> (r: u128) {
        used_value(&self.layouts)
    }

    fn empty_layout_has_stock(&self, index: usize) -> (r: bool) {
        let bin_id: usize = self.empty_layouts[index].bin.id;
        self.bin_qtys[bin_id] > 0
    }

    fn get_layout(&self, index: LayoutIndex) -> (r: &Layout) {
        match index {
            LayoutIndex::Existing(i) => &self.layouts[i],
            LayoutIndex::Empty(i) => &self.empty_layouts[i],
        }
    }

    fn min_usage_layout_index(&self) -> (r: Option<usize>) {
        least_used_layout(&self.layouts)
    }

    fn flush_changes(&mut self) {
    }
}

} // verus!
