//! Bin packing: items are placed into copies of bins of a finite stock.

use vstd::prelude::*;
use crate::entities::bin::{bin_sketches, Bin};
use crate::entities::instances::bin_packing::BPInstance;
use crate::entities::instances::instance::total_qty;
use crate::entities::item::Item;
use crate::entities::layout::{
    lemma_same_bin_sketches,
    placed_views,
    Layout,
    LayoutSnapshot,
    LayoutView,
    PlaceRejected,
    Usage,
};
use crate::entities::placed_item::{PlacedItem, PlacedItemUID};
use crate::entities::placing_option::PlacingOption;
use crate::entities::problems::counting::{
    as_ints,
    bin_areas,
    bin_hits,
    count_bin,
    count_in_layouts,
    layout_counts,
    layout_views,
    lemma_count_bin_push,
    lemma_count_bin_remove,
    lemma_count_bin_update,
    lemma_count_in_layouts_nonneg,
    lemma_count_item_empty,
    lemma_count_item_push,
    lemma_count_item_remove,
    lemma_count_layout_push,
    lemma_count_layout_remove,
    lemma_count_layout_update,
    snapshot_views,
    used_areas,
};
use crate::entities::problems::problem::{
    LayoutIndex,
    PlaceResult,
    Problem,
    ProblemPrivate,
    ProblemView,
    Rejection,
    RemoveRejected,
};
use crate::entities::solution::Solution;
use crate::geometry::transformation::DTransformation;
use crate::util::config::CDEConfig;
use crate::util::sums::sum;

verus! {

/// A bin packing instance with the layouts in use.
#[derive(Debug)]
pub struct BPProblem {
    pub instance: BPInstance,
    /// The layouts that hold items.
    pub layouts: Vec<Layout>,
    /// For each bin, a layout of it that holds no item.
    pub empty_layouts: Vec<Layout>,
    /// For each item, how many copies are demanded and not placed.
    pub missing_item_qtys: Vec<isize>,
    /// For each bin, how many copies are left in stock.
    pub bin_qtys: Vec<usize>,
    pub solution_id_counter: usize,
    pub config: CDEConfig,
}

/// The layout is a sound layout of a copy of one of the bins, and every
/// item in it is a copy of one of the items.
pub open spec fn layout_fits(l: Layout, n_items: int, bins: Seq<(Bin, usize)>, config: CDEConfig) -> bool {
    &&& l.wf()
    &&& l.cde.config == config
    &&& l.bin.id < bins.len()
    &&& bin_sketches(l.bin) == bin_sketches(bins[l.bin.id as int].0)
    &&& l.bin.area2 == bins[l.bin.id as int].0.area2
    &&& l.bin.value == bins[l.bin.id as int].0.value
    &&& forall|k: int|
        0 <= k < l.placed_items@.len() ==> (#[trigger] l.placed_items@[k]).item_id < n_items
}

/// The snapshot is a sound snapshot of a copy of one of the bins that holds
/// at least one item, and every item in it is a copy of one of the items.
pub open spec fn snapshot_fits(s: LayoutSnapshot, n_items: int, bins: Seq<(Bin, usize)>) -> bool {
    &&& s.wf()
    &&& s.placed_items@.len() > 0
    &&& s.bin.id < bins.len()
    &&& bin_sketches(s.bin) == bin_sketches(bins[s.bin.id as int].0)
    &&& s.bin.area2 == bins[s.bin.id as int].0.area2
    &&& s.bin.value == bins[s.bin.id as int].0.value
    &&& forall|k: int|
        0 <= k < s.placed_items@.len() ==> (#[trigger] s.placed_items@[k]).item_id < n_items
}

/// What a layout rejection means for the problem.
pub open spec fn rejection_of(r: Option<PlaceRejected>) -> Option<Rejection> {
    match r {
        Some(PlaceRejected::Defect(_)) => Some(Rejection::InvalidInput),
        Some(PlaceRejected::Collision) => Some(Rejection::Collision),
        Some(PlaceRejected::NoCapacity) => Some(Rejection::Collision),
        None => None,
    }
}

/// The layout `after` is `before` with one more item: the item moved by
/// `d_transf`, under the identifier `uid`.
pub open spec fn placed_as(
    before: Layout,
    after: Layout,
    item: Item,
    d_transf: DTransformation,
    uid: PlacedItemUID,
) -> bool {
    &&& after.id == before.id
    &&& after.bin == before.bin
    &&& uid == PlacedItemUID(before.next_uid)
    &&& after.next_uid == before.next_uid + 1
    &&& after.placed_items@.len() == before.placed_items@.len() + 1
    &&& after.placed_items@.drop_last() == before.placed_items@
    &&& after.placed_items@.last().uid == uid
    &&& after.placed_items@.last().item_id == item.id
    &&& after.placed_items@.last().d_transf == d_transf
    &&& after.placed_items@.last().base_quality == item.base_quality
    &&& after.placed_items@.last().shape.points@
        == crate::geometry::simple_polygon::moved_points(
        item.shape.points@,
        d_transf.spec_compose(),
    )
}

/// The demands of the items, as integers.
pub open spec fn demands(items: Seq<(Item, usize)>) -> Seq<int> {
    Seq::new(items.len(), |i: int| items[i].1 as int)
}

/// The demands add up as `total_qty` says.
pub proof fn lemma_demands_sum(items: Seq<(Item, usize)>, k: nat)
    requires
        k <= items.len(),
    ensures
        sum(demands(items).subrange(0, k as int)) == total_qty(items, k),
    decreases k,
{
    if k > 0 {
        lemma_demands_sum(items, (k - 1) as nat);
        assert(demands(items).subrange(0, k as int).drop_last() =~= demands(items).subrange(
            0,
            k as int - 1,
        ));
    }
}

impl BPProblem {
    /// Why the proposal is rejected, if it is.
    pub open spec fn spec_rejection(&self, i_opt: PlacingOption) -> Option<Rejection> {
        let item_id = i_opt.item_id as int;
        if item_id >= self.instance.items@.len() {
            Some(Rejection::InvalidInput)
        } else {
            let item = self.instance.items@[item_id].0;
            match i_opt.layout_index {
                LayoutIndex::Existing(i) => if i >= self.layouts@.len() {
                    Some(Rejection::InvalidInput)
                } else if self.missing_item_qtys@[item_id] <= 0 {
                    Some(Rejection::QuantityExhausted)
                } else {
                    rejection_of(self.layouts@[i as int].spec_rejects(item, i_opt.d_transform))
                },
                LayoutIndex::Empty(b) => if b >= self.empty_layouts@.len() {
                    Some(Rejection::InvalidInput)
                } else if self.missing_item_qtys@[item_id] <= 0 {
                    Some(Rejection::QuantityExhausted)
                } else if self.bin_qtys@[b as int] == 0 {
                    Some(Rejection::NoStock)
                } else {
                    rejection_of(
                        self.empty_layouts@[b as int].spec_rejects(item, i_opt.d_transform),
                    )
                },
            }
        }
    }

    /// Nothing that can be seen or used of the problem has changed.
    pub open spec fn same_state(&self, after: &BPProblem) -> bool {
        &&& after.instance == self.instance
        &&& after.config == self.config
        &&& after.layouts@ == self.layouts@
        &&& after.empty_layouts@ == self.empty_layouts@
        &&& after.missing_item_qtys@ == self.missing_item_qtys@
        &&& after.bin_qtys@ == self.bin_qtys@
        &&& after.solution_id_counter == self.solution_id_counter
    }

    /// The problem of the instance with no item placed.
    pub fn new(instance: BPInstance, config: CDEConfig) -> (p: BPProblem)
        requires
            instance.wf(),
            config.wf(),
        ensures
            Problem::wf(&p),
            p.instance == instance,
            p.config == config,
            p.layouts@.len() == 0,
            p.solution_id_counter == 0,
            p.missing_item_qtys@.len() == instance.items@.len(),
            forall|i: int|
                0 <= i < instance.items@.len() ==> #[trigger] p.missing_item_qtys@[i]
                    == instance.items@[i].1,
            p.bin_qtys@.len() == instance.bins@.len(),
            forall|b: int|
                0 <= b < instance.bins@.len() ==> #[trigger] p.bin_qtys@[b] == instance.bins@[b].1,
            forall|b: int|
                0 <= b < instance.bins@.len() ==> (#[trigger] p.empty_layouts@[b]).next_uid == 0,
    {
        let mut missing: Vec<isize> = Vec::new();
        let mut i: usize = 0;
        while i < instance.items.len()
            invariant
                i <= instance.items.len(),
                instance.wf(),
                missing@.len() == i,
                forall|j: int| 0 <= j < i ==> #[trigger] missing@[j] == instance.items@[j].1,
            decreases instance.items.len() - i,
        {
            proof {
                crate::entities::solution::lemma_qty_bounded(instance.items@, i as int);
            }
            missing.push(instance.items[i].1 as isize);
            i += 1;
        }
        let mut bin_qtys: Vec<usize> = Vec::new();
        let mut empty_layouts: Vec<Layout> = Vec::new();
        let mut b: usize = 0;
        while b < instance.bins.len()
            invariant
                b <= instance.bins.len(),
                instance.wf(),
                config.wf(),
                bin_qtys@.len() == b,
                empty_layouts@.len() == b,
                forall|c: int| 0 <= c < b ==> #[trigger] bin_qtys@[c] == instance.bins@[c].1,
                forall|c: int|
                    0 <= c < b ==> {
                        &&& layout_fits(
                            #[trigger] empty_layouts@[c],
                            instance.items@.len() as int,
                            instance.bins@,
                            config,
                        )
                        &&& empty_layouts@[c].placed_items@.len() == 0
                        &&& empty_layouts@[c].next_uid == 0
                        &&& empty_layouts@[c].bin.id == c
                    },
            decreases instance.bins.len() - b,
        {
            assert(instance.bins@[b as int].0.wf());
            let bin: Bin = instance.bins[b].0.clone_bin();
            proof {
                lemma_same_bin_sketches(instance.bins@[b as int].0, bin);
            }
            let layout: Layout = Layout::new(b, bin, config);
            bin_qtys.push(instance.bins[b].1);
            empty_layouts.push(layout);
            b += 1;
        }
        let p: BPProblem = BPProblem {
            instance,
            layouts: Vec::new(),
            empty_layouts,
            missing_item_qtys: missing,
            bin_qtys,
            solution_id_counter: 0,
            config,
        };
        proof {
            let views = layout_views(p.layouts@);
            assert(views =~= Seq::<LayoutView>::empty());
            assert forall|i: int| 0 <= i < p.instance.items@.len() implies count_in_layouts(
                views,
                i,
            ) == 0 by {
                assert(layout_counts(views, i) =~= Seq::<int>::empty());
            }
            assert forall|c: int| 0 <= c < p.instance.bins@.len() implies count_bin(views, c)
                == 0 by {
                assert(bin_hits(views, c) =~= Seq::<int>::empty());
            }
        }
        p
    }

    /// The item with the given identifier.
    pub fn item(&self, item_id: usize) -> (r: &Item)
        requires
            item_id < self.instance.items@.len(),
        ensures
            *r == self.instance.items@[item_id as int].0,
    {
        &self.instance.items[item_id].0
    }

    /// Places a copy of the item into the layout at position `i`.
    fn place_in_existing(&mut self, i: usize, item_id: usize, d_transf: DTransformation) -> (r:
        Result<PlacedItemUID, PlaceRejected>)
        requires
            Problem::wf(&*old(self)),
            i < old(self).layouts@.len(),
            item_id < old(self).instance.items@.len(),
            old(self).missing_item_qtys@[item_id as int] > 0,
        ensures
            Problem::wf(&*final(self)),
            final(self).instance == old(self).instance,
            final(self).config == old(self).config,
            final(self).empty_layouts@ == old(self).empty_layouts@,
            final(self).bin_qtys@ == old(self).bin_qtys@,
            final(self).solution_id_counter == old(self).solution_id_counter,
            final(self).layouts@.len() == old(self).layouts@.len(),
            forall|j: int|
                0 <= j < old(self).layouts@.len() && j != i ==> final(self).layouts@[j] == old(self).layouts@[j],
            match r {
                Ok(uid) => {
                    &&& old(self).layouts@[i as int].spec_rejects(
                        old(self).instance.items@[item_id as int].0,
                        d_transf,
                    ).is_none()
                    &&& placed_as(
                        old(self).layouts@[i as int],
                        final(self).layouts@[i as int],
                        old(self).instance.items@[item_id as int].0,
                        d_transf,
                        uid,
                    )
                    &&& final(self).missing_item_qtys@ == old(self).missing_item_qtys@.update(
                        item_id as int,
                        (old(self).missing_item_qtys@[item_id as int] - 1) as isize,
                    )
                },
                Err(e) => {
                    &&& old(self).layouts@[i as int].spec_rejects(
                        old(self).instance.items@[item_id as int].0,
                        d_transf,
                    ) == Some(e)
                    &&& final(self).layouts@ == old(self).layouts@
                    &&& final(self).missing_item_qtys@ == old(self).missing_item_qtys@
                },
            },
    {
        let ghost before = *self;
        assert(layout_fits(
            self.layouts@[i as int],
            self.instance.items@.len() as int,
            self.instance.bins@,
            self.config,
        ));
        assert(self.instance.items@[item_id as int].0.wf());
        let res: Result<PlacedItemUID, PlaceRejected> = self.layouts[i].place(
            &self.instance.items[item_id].0,
            d_transf,
        );
        match res {
            Err(e) => {
                proof {
                    assert(self.layouts@[i as int] == before.layouts@[i as int]);
                    assert(self.layouts@ =~= before.layouts@);
                }
                Err(e)
            },
            Ok(uid) => {
                let m: isize = self.missing_item_qtys[item_id];
                self.missing_item_qtys.set(item_id, m - 1);
                proof {
                    lemma_layout_grew_keeps_wf(before, *self, i as int, item_id as int);
                }
                Ok(uid)
            },
        }
    }

    /// Places a copy of the item into a new copy of the bin `b`.
    #[verifier::rlimit(80)]
    #[verifier::spinoff_prover]
    fn place_in_empty(&mut self, b: usize, item_id: usize, d_transf: DTransformation) -> (r: Result<
        PlacedItemUID,
        PlaceRejected,
    >)
        requires
            Problem::wf(&*old(self)),
            b < old(self).empty_layouts@.len(),
            item_id < old(self).instance.items@.len(),
            old(self).missing_item_qtys@[item_id as int] > 0,
            old(self).bin_qtys@[b as int] > 0,
        ensures
            Problem::wf(&*final(self)),
            final(self).instance == old(self).instance,
            final(self).config == old(self).config,
            final(self).solution_id_counter == old(self).solution_id_counter,
            match r {
                Ok(uid) => {
                    &&& old(self).empty_layouts@[b as int].spec_rejects(
                        old(self).instance.items@[item_id as int].0,
                        d_transf,
                    ).is_none()
                    &&& final(self).layouts@.len() == old(self).layouts@.len() + 1
                    &&& final(self).layouts@.drop_last() == old(self).layouts@
                    &&& placed_as(
                        old(self).empty_layouts@[b as int],
                        final(self).layouts@.last(),
                        old(self).instance.items@[item_id as int].0,
                        d_transf,
                        uid,
                    )
                    &&& final(self).missing_item_qtys@ == old(self).missing_item_qtys@.update(
                        item_id as int,
                        (old(self).missing_item_qtys@[item_id as int] - 1) as isize,
                    )
                    &&& final(self).bin_qtys@ == old(self).bin_qtys@.update(
                        b as int,
                        (old(self).bin_qtys@[b as int] - 1) as usize,
                    )
                    &&& final(self).empty_layouts@.len() == old(self).empty_layouts@.len()
                    &&& final(self).empty_layouts@[b as int].next_uid == 0
                    &&& forall|c: int|
                        0 <= c < old(self).empty_layouts@.len() && c != b ==> final(self).empty_layouts@[c] == old(self).empty_layouts@[c]
                },
                Err(e) => {
                    &&& old(self).empty_layouts@[b as int].spec_rejects(
                        old(self).instance.items@[item_id as int].0,
                        d_transf,
                    ) == Some(e)
                    &&& old(self).same_state(final(self))
                },
            },
    {
        let ghost before = *self;
        assert(layout_fits(
            self.empty_layouts@[b as int],
            self.instance.items@.len() as int,
            self.instance.bins@,
            self.config,
        ));
        assert(self.instance.items@[item_id as int].0.wf());
        let res: Result<PlacedItemUID, PlaceRejected> = self.empty_layouts[b].place(
            &self.instance.items[item_id].0,
            d_transf,
        );
        match res {
            Err(e) => {
                proof {
                    assert(self.empty_layouts@[b as int] == before.empty_layouts@[b as int]);
                    assert(self.empty_layouts@ =~= before.empty_layouts@);
                }
                Err(e)
            },
            Ok(uid) => {
                assert(self.instance.bins@[b as int].0.wf());
                let bin: Bin = self.instance.bins[b].0.clone_bin();
                proof {
                    lemma_same_bin_sketches(self.instance.bins@[b as int].0, bin);
                }
                let fresh: Layout = Layout::new(b, bin, self.config);
                let ghost filled = self.empty_layouts@[b as int];
                self.empty_layouts.push(fresh);
                let layout: Layout = self.empty_layouts.swap_remove(b);
                assert(layout == filled);
                self.layouts.push(layout);
                let m: isize = self.missing_item_qtys[item_id];
                self.missing_item_qtys.set(item_id, m - 1);
                let q: usize = self.bin_qtys[b];
                self.bin_qtys.set(b, q - 1);
                proof {
                    assert(self.layouts@.drop_last() =~= before.layouts@);
                    assert forall|c: int|
                        0 <= c < before.empty_layouts@.len() && c != b implies self.empty_layouts@[c]
                        == before.empty_layouts@[c] by {}
                    lemma_layout_opened_keeps_wf(before, *self, b as int, item_id as int, fresh);
                }
                Ok(uid)
            },
        }
    }

    /// Takes the item out of the layout at position `i`; the layout stays
    /// among those in use even where it holds no other item.
    fn take_item(&mut self, i: usize, uid: PlacedItemUID) -> (r: Option<(PlacedItem, Ghost<int>)>)
        requires
            Problem::wf(&*old(self)),
            i < old(self).layouts@.len(),
        ensures
            match r {
                None => {
                    &&& forall|k: int|
                        0 <= k < old(self).layouts@[i as int].placed_items@.len() ==> (
                        #[trigger] old(self).layouts@[i as int].placed_items@[k]).uid != uid
                    &&& old(self).same_state(final(self))
                    &&& Problem::wf(&*final(self))
                },
                Some((p, k)) => {
                    &&& 0 <= k@ < old(self).layouts@[i as int].placed_items@.len()
                    &&& old(self).layouts@[i as int].placed_items@[k@].uid == uid
                    &&& p == old(self).layouts@[i as int].placed_items@[k@]
                    &&& p.item_id < old(self).instance.items@.len()
                    &&& old(self).missing_item_qtys@[p.item_id as int] < isize::MAX
                    &&& final(self).missing_item_qtys@ == old(self).missing_item_qtys@.update(
                        p.item_id as int,
                        (old(self).missing_item_qtys@[p.item_id as int] + 1) as isize,
                    )
                    &&& shrunk(*old(self), *final(self), i as int, k@)
                },
            },
    {
        let ghost before = *self;
        assert(layout_fits(
            self.layouts@[i as int],
            self.instance.items@.len() as int,
            self.instance.bins@,
            self.config,
        ));
        let res: Option<PlacedItem> = self.layouts[i].remove(uid);
        match res {
            None => {
                proof {
                    assert(self.layouts@[i as int] == before.layouts@[i as int]);
                    assert(self.layouts@ =~= before.layouts@);
                }
                None
            },
            Some(p) => {
                let ghost k = choose|k: int|
                    0 <= k < before.layouts@[i as int].placed_items@.len() && (
                    #[trigger] before.layouts@[i as int].placed_items@[k]).uid == uid && p
                        == before.layouts@[i as int].placed_items@[k]
                        && self.layouts@[i as int].placed_items@
                        == before.layouts@[i as int].placed_items@.remove(k);
                let item_id: usize = p.item_id;
                proof {
                    assert(before.layouts@[i as int].placed_items@[k].item_id
                        < before.instance.items@.len());
                    lemma_count_in_layouts_nonneg(layout_views(before.layouts@), item_id as int);
                    crate::entities::solution::lemma_qty_bounded(
                        before.instance.items@,
                        item_id as int,
                    );
                    assert(before.missing_item_qtys@[item_id as int] + count_in_layouts(
                        layout_views(before.layouts@),
                        item_id as int,
                    ) == before.instance.items@[item_id as int].1);
                }
                let m: isize = self.missing_item_qtys[item_id];
                self.missing_item_qtys.set(item_id, m + 1);
                proof {
                    lemma_layout_shrank(before, *self, i as int, k);
                }
                Some((p, Ghost(k)))
            },
        }
    }

    /// Takes the layout at position `i`, which holds no item, out of the
    /// layouts in use, and puts its bin back in stock.
    fn close_layout(&mut self, i: usize, Ghost(before): Ghost<BPProblem>, Ghost(k): Ghost<int>)
        requires
            Problem::wf(&before),
            shrunk(before, *old(self), i as int, k),
            i < old(self).layouts@.len(),
            old(self).layouts@[i as int].placed_items@.len() == 0,
        ensures
            Problem::wf(&*final(self)),
            final(self).instance == old(self).instance,
            final(self).config == old(self).config,
            final(self).solution_id_counter == old(self).solution_id_counter,
            final(self).empty_layouts@ == old(self).empty_layouts@,
            final(self).missing_item_qtys@ == old(self).missing_item_qtys@,
            layout_views(final(self).layouts@) == layout_views(old(self).layouts@).remove(i as int),
            old(self).layouts@[i as int].bin.id < old(self).bin_qtys@.len(),
            final(self).bin_qtys@ == old(self).bin_qtys@.update(
                old(self).layouts@[i as int].bin.id as int,
                (old(self).bin_qtys@[old(self).layouts@[i as int].bin.id as int] + 1) as usize,
            ),
    {
        let ghost mid = *self;
        assert(layout_fits(
            self.layouts@[i as int],
            self.instance.items@.len() as int,
            self.instance.bins@,
            self.config,
        ));
        let bin_id: usize = self.layouts[i].bin.id;
        proof {
            lemma_bin_in_use(layout_views(mid.layouts@), i as int);
            assert(mid.bin_qtys@[bin_id as int] + count_bin(
                layout_views(mid.layouts@),
                bin_id as int,
            ) == mid.instance.bins@[bin_id as int].1);
        }
        let gone: Layout = self.layouts.remove(i);
        let q: usize = self.bin_qtys[bin_id];
        self.bin_qtys.set(bin_id, q + 1);
        proof {
            lemma_layout_closed_keeps_wf(mid, *self, i as int);
        }
    }

    /// Takes the item out of the layout at position `i`, and the layout out
    /// of the problem where it holds no other item.
    fn remove_from(&mut self, i: usize, uid: PlacedItemUID) -> (r: Option<PlacedItem>)
        requires
            Problem::wf(&*old(self)),
            i < old(self).layouts@.len(),
        ensures
            Problem::wf(&*final(self)),
            final(self).instance == old(self).instance,
            final(self).config == old(self).config,
            final(self).solution_id_counter == old(self).solution_id_counter,
            final(self).empty_layouts@ == old(self).empty_layouts@,
            old(self).removal(i as int, uid, r, final(self)),
    {
        let ghost before = *self;
        match self.take_item(i, uid) {
            None => None,
            Some(taken) => {
                let ghost k = taken.1@;
                let ghost mid = *self;
                let ghost layout = before.layouts@[i as int];
                assert(mid.layouts@[i as int].placed_items@.len() == layout.placed_items@.len()
                    - 1);
                if self.layouts[i].is_empty() {
                    self.close_layout(i, Ghost(before), Ghost(k));
                    proof {
                        assert(layout_views(mid.layouts@) =~= layout_views(
                            before.layouts@,
                        ).update(i as int, mid.layouts@[i as int]@));
                        assert(layout_views(mid.layouts@).remove(i as int) =~= layout_views(
                            before.layouts@,
                        ).remove(i as int));
                    }
                }
                proof {
                    assert(layout.placed_items@[k].uid == uid);
                }
                Some(taken.0)
            },
        }
    }

    /// What taking the item `uid` out of the layout at position `i` does:
    /// `r` is the item taken out, if any, and `after` the problem after it.
    pub open spec fn removal(
        &self,
        i: int,
        uid: PlacedItemUID,
        r: Option<PlacedItem>,
        after: &BPProblem,
    ) -> bool {
        let layout = self.layouts@[i];
        match r {
            None => {
                &&& forall|k: int|
                    0 <= k < layout.placed_items@.len() ==> (#[trigger] layout.placed_items@[k]).uid
                        != uid
                &&& self.same_state(after)
            },
            Some(p) => exists|k: int|
                {
                    &&& 0 <= k < layout.placed_items@.len()
                    &&& (#[trigger] layout.placed_items@[k]).uid == uid
                    &&& p == layout.placed_items@[k]
                    &&& after.missing_item_qtys@ == self.missing_item_qtys@.update(
                        p.item_id as int,
                        (self.missing_item_qtys@[p.item_id as int] + 1) as isize,
                    )
                    &&& if layout.placed_items@.len() == 1 {
                        &&& layout_views(after.layouts@) == layout_views(self.layouts@).remove(i)
                        &&& after.bin_qtys@ == self.bin_qtys@.update(
                            layout.bin.id as int,
                            (self.bin_qtys@[layout.bin.id as int] + 1) as usize,
                        )
                    } else {
                        &&& after.layouts@.len() == self.layouts@.len()
                        &&& forall|j: int|
                            0 <= j < self.layouts@.len() && j != i ==> after.layouts@[j]
                                == self.layouts@[j]
                        &&& after.layouts@[i].placed_items@ == layout.placed_items@.remove(k)
                        &&& after.layouts@[i].bin == layout.bin
                        &&& after.bin_qtys@ == self.bin_qtys@
                    }
                },
        }
    }
}

/// The values of the layouts' bins.
pub open spec fn bin_values(layouts: Seq<Layout>) -> Seq<int> {
    Seq::new(layouts.len(), |l: int| layouts[l].bin.value as int)
}

/// The value of the layouts' bins together.
pub fn used_value(layouts: &Vec<Layout>) -> (r: u128)
    ensures
        r == sum(bin_values(layouts@)),
{
    let mut total: u128 = 0;
    let mut l: usize = 0;
    let ghost values = bin_values(layouts@);
    assert(values.subrange(0, 0) =~= Seq::<int>::empty());
    while l < layouts.len()
        invariant
            l <= layouts.len(),
            values == bin_values(layouts@),
            total == sum(values.subrange(0, l as int)),
            total <= l * 0xFFFF_FFFF_FFFF_FFFF,
        decreases layouts.len() - l,
    {
        proof {
            assert(values.subrange(0, l as int + 1).drop_last() =~= values.subrange(
                0,
                l as int,
            ));
        }
        total = total + layouts[l].bin.value as u128;
        l += 1;
    }
    assert(values.subrange(0, l as int) =~= values);
    total
}

/// The position of the first of the first `k` layouts whose usage is the
/// lowest.
pub open spec fn least_used(layouts: Seq<LayoutView>, k: nat) -> int
    decreases k,
{
    if k <= 1 {
        0
    } else {
        let b = least_used(layouts, (k - 1) as nat);
        if layouts[k - 1].usage.spec_lt(layouts[b].usage) {
            k - 1
        } else {
            b
        }
    }
}

/// Finds the first layout whose usage is the lowest.
pub fn least_used_layout(layouts: &Vec<Layout>) -> (r: Option<usize>)
    requires
        forall|l: int| 0 <= l < layouts@.len() ==> (#[trigger] layouts@[l]).wf(),
    ensures
        match r {
            None => layouts@.len() == 0,
            Some(i) => i == least_used(layout_views(layouts@), layouts@.len()) && i < layouts@.len(),
        },
{
    if layouts.len() == 0 {
        return None;
    }
    let mut best: usize = 0;
    let mut k: usize = 1;
    while k < layouts.len()
        invariant
            1 <= k <= layouts.len(),
            best < k,
            best == least_used(layout_views(layouts@), k as nat),
            forall|l: int| 0 <= l < layouts@.len() ==> (#[trigger] layouts@[l]).wf(),
        decreases layouts.len() - k,
    {
        assert(layouts@[k as int].wf());
        assert(layouts@[best as int].wf());
        let a: Usage = layouts[k].usage();
        let b: Usage = layouts[best].usage();
        if a.lt(&b) {
            best = k;
        }
        k += 1;
    }
    Some(best)
}

/// Adds up the areas used and the areas of the bins over the layouts.
pub fn total_usage(layouts: &Vec<Layout>) -> (r: Usage)
    requires
        forall|l: int| 0 <= l < layouts@.len() ==> (#[trigger] layouts@[l]).wf(),
    ensures
        r.used == sum(used_areas(layout_views(layouts@))),
        r.total == sum(bin_areas(layout_views(layouts@))),
{
    let mut used: u128 = 0;
    let mut total: u128 = 0;
    let mut l: usize = 0;
    let ghost us = used_areas(layout_views(layouts@));
    let ghost ts = bin_areas(layout_views(layouts@));
    assert(us.subrange(0, 0) =~= Seq::<int>::empty());
    assert(ts.subrange(0, 0) =~= Seq::<int>::empty());
    while l < layouts.len()
        invariant
            l <= layouts.len(),
            us == used_areas(layout_views(layouts@)),
            ts == bin_areas(layout_views(layouts@)),
            forall|j: int| 0 <= j < layouts@.len() ==> (#[trigger] layouts@[j]).wf(),
            used == sum(us.subrange(0, l as int)),
            total == sum(ts.subrange(0, l as int)),
            used <= l * 0xFFFF_FFFF_FFFF_FFFF,
            total <= l * 0xFFFF_FFFF_FFFF_FFFF,
        decreases layouts.len() - l,
    {
        proof {
            assert(us.subrange(0, l as int + 1).drop_last() =~= us.subrange(0, l as int));
            assert(ts.subrange(0, l as int + 1).drop_last() =~= ts.subrange(0, l as int));
            assert(layouts@[l as int].wf());
        }
        let u: Usage = layouts[l].usage();
        used = used + u.used;
        total = total + u.total;
        l += 1;
    }
    assert(us.subrange(0, l as int) =~= us);
    assert(ts.subrange(0, l as int) =~= ts);
    Usage { used, total }
}

/// A layout in a bin is counted for that bin.
pub proof fn lemma_bin_in_use(layouts: Seq<LayoutView>, l: int)
    requires
        0 <= l < layouts.len(),
    ensures
        count_bin(layouts, layouts[l].bin_id as int) >= 1,
{
    let hits = bin_hits(layouts, layouts[l].bin_id as int);
    crate::util::sums::lemma_sum_covers(hits, l);
}

/// The problem stays consistent where one layout gets one more item, a
/// copy of the item `item_id`, and one copy less is missing.
pub proof fn lemma_layout_grew_keeps_wf(before: BPProblem, after: BPProblem, i: int, item_id: int)
    requires
        Problem::wf(&before),
        0 <= i < before.layouts@.len(),
        0 <= item_id < before.instance.items@.len(),
        before.missing_item_qtys@[item_id] > 0,
        after.instance == before.instance,
        after.config == before.config,
        after.empty_layouts@ == before.empty_layouts@,
        after.bin_qtys@ == before.bin_qtys@,
        after.solution_id_counter == before.solution_id_counter,
        after.layouts@.len() == before.layouts@.len(),
        forall|j: int|
            0 <= j < before.layouts@.len() && j != i ==> after.layouts@[j] == before.layouts@[j],
        after.layouts@[i].wf(),
        after.layouts@[i].bin == before.layouts@[i].bin,
        after.layouts@[i].cde.config == before.layouts@[i].cde.config,
        after.layouts@[i].placed_items@.len() == before.layouts@[i].placed_items@.len() + 1,
        after.layouts@[i].placed_items@.drop_last() == before.layouts@[i].placed_items@,
        after.layouts@[i].placed_items@.last().item_id == item_id,
        after.missing_item_qtys@ == before.missing_item_qtys@.update(
            item_id,
            (before.missing_item_qtys@[item_id] - 1) as isize,
        ),
    ensures
        Problem::wf(&after),
{
    let v0 = layout_views(before.layouts@);
    let v1 = layout_views(after.layouts@);
    let l0 = before.layouts@[i];
    let l1 = after.layouts@[i];
    assert(v1 =~= v0.update(i, l1@));
    assert(placed_views(l1.placed_items@) =~= placed_views(l0.placed_items@).push(
        l1.placed_items@.last()@,
    ));
    assert forall|k: int| 0 <= k < l1.placed_items@.len() implies (#[trigger] l1.placed_items@[k]).item_id
        < before.instance.items@.len() by {
        if k < l0.placed_items@.len() {
            assert(l1.placed_items@[k] == l1.placed_items@.drop_last()[k]);
        }
    }
    assert forall|j: int| 0 <= j < after.layouts@.len() implies layout_fits(
        #[trigger] after.layouts@[j],
        after.instance.items@.len() as int,
        after.instance.bins@,
        after.config,
    ) && after.layouts@[j].placed_items@.len() > 0 by {
        if j != i {
            assert(after.layouts@[j] == before.layouts@[j]);
        }
    }
    assert forall|t: int| 0 <= t < after.instance.items@.len() implies (
    #[trigger] after.missing_item_qtys@[t]) + count_in_layouts(v1, t)
        == after.instance.items@[t].1 && after.missing_item_qtys@[t] >= 0 by {
        lemma_count_layout_update(v0, i, l1@, t);
        lemma_count_item_push(placed_views(l0.placed_items@), l1.placed_items@.last()@, t);
        assert(before.missing_item_qtys@[t] + count_in_layouts(v0, t)
            == before.instance.items@[t].1);
    }
    assert forall|b: int| 0 <= b < after.instance.bins@.len() implies (
    #[trigger] after.bin_qtys@[b]) + count_bin(v1, b) == after.instance.bins@[b].1 by {
        lemma_count_bin_update(v0, i, l1@, b);
        assert(before.bin_qtys@[b] + count_bin(v0, b) == before.instance.bins@[b].1);
    }
}

/// The problem stays consistent where the empty layout of the bin `b`,
/// with one item placed in it, joins the layouts in use, and a new empty
/// layout takes its place.
#[verifier::rlimit(60)]
#[verifier::spinoff_prover]
pub proof fn lemma_layout_opened_keeps_wf(
    before: BPProblem,
    after: BPProblem,
    b: int,
    item_id: int,
    fresh: Layout,
)
    requires
        Problem::wf(&before),
        0 <= b < before.empty_layouts@.len(),
        0 <= item_id < before.instance.items@.len(),
        before.missing_item_qtys@[item_id] > 0,
        before.bin_qtys@[b] > 0,
        after.instance == before.instance,
        after.config == before.config,
        after.solution_id_counter == before.solution_id_counter,
        after.layouts@.len() == before.layouts@.len() + 1,
        after.layouts@.drop_last() == before.layouts@,
        after.layouts@.last().wf(),
        after.layouts@.last().bin == before.empty_layouts@[b].bin,
        after.layouts@.last().cde.config == before.config,
        after.layouts@.last().placed_items@.len() == 1,
        after.layouts@.last().placed_items@.last().item_id == item_id,
        after.empty_layouts@.len() == before.empty_layouts@.len(),
        forall|c: int|
            0 <= c < before.empty_layouts@.len() && c != b ==> after.empty_layouts@[c]
                == before.empty_layouts@[c],
        after.empty_layouts@[b] == fresh,
        layout_fits(fresh, before.instance.items@.len() as int, before.instance.bins@, before.config),
        fresh.placed_items@.len() == 0,
        fresh.bin.id == b,
        after.missing_item_qtys@ == before.missing_item_qtys@.update(
            item_id,
            (before.missing_item_qtys@[item_id] - 1) as isize,
        ),
        after.bin_qtys@ == before.bin_qtys@.update(b, (before.bin_qtys@[b] - 1) as usize),
    ensures
        Problem::wf(&after),
{
    let v0 = layout_views(before.layouts@);
    let v1 = layout_views(after.layouts@);
    let l1 = after.layouts@.last();
    let template = before.empty_layouts@[b];
    assert(layout_fits(
        template,
        before.instance.items@.len() as int,
        before.instance.bins@,
        before.config,
    ));
    assert(v1 =~= v0.push(l1@));
    assert forall|j: int| 0 <= j < after.layouts@.len() implies layout_fits(
        #[trigger] after.layouts@[j],
        after.instance.items@.len() as int,
        after.instance.bins@,
        after.config,
    ) && after.layouts@[j].placed_items@.len() > 0 by {
        if j < before.layouts@.len() {
            assert(after.layouts@[j] == after.layouts@.drop_last()[j]);
        } else {
            assert(after.layouts@[j] == l1);
            assert forall|k: int| 0 <= k < l1.placed_items@.len() implies (
            #[trigger] l1.placed_items@[k]).item_id < before.instance.items@.len() by {
                assert(l1.placed_items@[k] == l1.placed_items@.last());
            }
        }
    }
    assert forall|c: int| 0 <= c < after.empty_layouts@.len() implies {
        &&& layout_fits(
            #[trigger] after.empty_layouts@[c],
            after.instance.items@.len() as int,
            after.instance.bins@,
            after.config,
        )
        &&& after.empty_layouts@[c].placed_items@.len() == 0
        &&& after.empty_layouts@[c].bin.id == c
    } by {
        if c != b {
            assert(after.empty_layouts@[c] == before.empty_layouts@[c]);
        }
    }
    assert forall|t: int| 0 <= t < after.instance.items@.len() implies (
    #[trigger] after.missing_item_qtys@[t]) + count_in_layouts(v1, t)
        == after.instance.items@[t].1 && after.missing_item_qtys@[t] >= 0 by {
        lemma_count_layout_push(v0, l1@, t);
        let first = l1.placed_items@.last()@;
        assert(placed_views(l1.placed_items@) =~= Seq::<
            crate::entities::placed_item::PlacedItemView,
        >::empty().push(first));
        lemma_count_item_push(
            Seq::<crate::entities::placed_item::PlacedItemView>::empty(),
            first,
            t,
        );
        lemma_count_item_empty(
            Seq::<crate::entities::placed_item::PlacedItemView>::empty(),
            t,
        );
        assert(before.missing_item_qtys@[t] + count_in_layouts(v0, t)
            == before.instance.items@[t].1);
    }
    assert forall|c: int| 0 <= c < after.instance.bins@.len() implies (
    #[trigger] after.bin_qtys@[c]) + count_bin(v1, c) == after.instance.bins@[c].1 by {
        lemma_count_bin_push(v0, l1@, c);
        assert(before.bin_qtys@[c] + count_bin(v0, c) == before.instance.bins@[c].1);
    }
}

/// What holds of a problem in which one layout has lost one item, while
/// the layout, which may hold no item now, is still among the layouts in
/// use.
pub open spec fn shrunk(before: BPProblem, mid: BPProblem, i: int, k: int) -> bool {
    let v1 = layout_views(mid.layouts@);
    &&& mid.instance == before.instance
    &&& mid.config == before.config
    &&& mid.solution_id_counter == before.solution_id_counter
    &&& mid.empty_layouts@ == before.empty_layouts@
    &&& mid.bin_qtys@ == before.bin_qtys@
    &&& mid.layouts@.len() == before.layouts@.len()
    &&& mid.missing_item_qtys@.len() == mid.instance.items@.len()
    &&& mid.bin_qtys@.len() == mid.instance.bins@.len()
    &&& forall|j: int|
        0 <= j < mid.layouts@.len() ==> layout_fits(
            #[trigger] mid.layouts@[j],
            mid.instance.items@.len() as int,
            mid.instance.bins@,
            mid.config,
        ) && (j != i ==> mid.layouts@[j].placed_items@.len() > 0 && mid.layouts@[j]
            == before.layouts@[j])
    &&& mid.layouts@[i].bin == before.layouts@[i].bin
    &&& mid.layouts@[i].placed_items@ == before.layouts@[i].placed_items@.remove(k)
    &&& forall|t: int|
        0 <= t < mid.instance.items@.len() ==> (#[trigger] mid.missing_item_qtys@[t])
            + count_in_layouts(v1, t) == mid.instance.items@[t].1 && mid.missing_item_qtys@[t]
            >= 0
    &&& forall|b: int|
        0 <= b < mid.instance.bins@.len() ==> (#[trigger] mid.bin_qtys@[b]) + count_bin(v1, b)
            == mid.instance.bins@[b].1
    &&& mid.layouts@[i].placed_items@.len() > 0 ==> Problem::wf(&mid)
}

/// One item less in one layout, and one copy more missing, keep the
/// quantities right.
pub proof fn lemma_layout_shrank(before: BPProblem, mid: BPProblem, i: int, k: int)
    requires
        Problem::wf(&before),
        0 <= i < before.layouts@.len(),
        0 <= k < before.layouts@[i].placed_items@.len(),
        mid.instance == before.instance,
        mid.config == before.config,
        mid.empty_layouts@ == before.empty_layouts@,
        mid.bin_qtys@ == before.bin_qtys@,
        mid.solution_id_counter == before.solution_id_counter,
        mid.layouts@.len() == before.layouts@.len(),
        forall|j: int|
            0 <= j < before.layouts@.len() && j != i ==> mid.layouts@[j] == before.layouts@[j],
        mid.layouts@[i].wf(),
        mid.layouts@[i].bin == before.layouts@[i].bin,
        mid.layouts@[i].cde.config == before.layouts@[i].cde.config,
        mid.layouts@[i].placed_items@ == before.layouts@[i].placed_items@.remove(k),
        before.missing_item_qtys@[before.layouts@[i].placed_items@[k].item_id as int]
            < isize::MAX,
        mid.missing_item_qtys@ == before.missing_item_qtys@.update(
            before.layouts@[i].placed_items@[k].item_id as int,
            (before.missing_item_qtys@[before.layouts@[i].placed_items@[k].item_id as int]
                + 1) as isize,
        ),
    ensures
        shrunk(before, mid, i, k),
{
    let v0 = layout_views(before.layouts@);
    let v1 = layout_views(mid.layouts@);
    let l0 = before.layouts@[i];
    let l1 = mid.layouts@[i];
    let item_id = l0.placed_items@[k].item_id as int;
    assert(layout_fits(
        l0,
        before.instance.items@.len() as int,
        before.instance.bins@,
        before.config,
    ));
    assert(v1 =~= v0.update(i, l1@));
    assert(placed_views(l1.placed_items@) =~= placed_views(l0.placed_items@).remove(k));
    assert forall|j: int| 0 <= j < l1.placed_items@.len() implies (#[trigger] l1.placed_items@[j]).item_id
        < before.instance.items@.len() by {
        if j < k {
            assert(l1.placed_items@[j] == l0.placed_items@[j]);
        } else {
            assert(l1.placed_items@[j] == l0.placed_items@[j + 1]);
        }
    }
    assert forall|j: int| 0 <= j < mid.layouts@.len() implies layout_fits(
        #[trigger] mid.layouts@[j],
        mid.instance.items@.len() as int,
        mid.instance.bins@,
        mid.config,
    ) && (j != i ==> mid.layouts@[j].placed_items@.len() > 0 && mid.layouts@[j]
        == before.layouts@[j]) by {
        if j != i {
            assert(mid.layouts@[j] == before.layouts@[j]);
        }
    }
    assert forall|t: int| 0 <= t < mid.instance.items@.len() implies (
    #[trigger] mid.missing_item_qtys@[t]) + count_in_layouts(v1, t) == mid.instance.items@[t].1
        && mid.missing_item_qtys@[t] >= 0 by {
        lemma_count_layout_update(v0, i, l1@, t);
        lemma_count_item_remove(placed_views(l0.placed_items@), k, t);
        assert(before.missing_item_qtys@[t] + count_in_layouts(v0, t)
            == before.instance.items@[t].1);
    }
    assert forall|b: int| 0 <= b < mid.instance.bins@.len() implies (#[trigger] mid.bin_qtys@[b])
        + count_bin(v1, b) == mid.instance.bins@[b].1 by {
        lemma_count_bin_update(v0, i, l1@, b);
        assert(before.bin_qtys@[b] + count_bin(v0, b) == before.instance.bins@[b].1);
    }
}

/// The problem is consistent again once the layout that holds no item has
/// left the layouts in use and its bin is back in stock.
#[verifier::rlimit(60)]
#[verifier::spinoff_prover]
pub proof fn lemma_layout_closed_keeps_wf(mid: BPProblem, after: BPProblem, i: int)
    requires
        0 <= i < mid.layouts@.len(),
        mid.instance.wf(),
        mid.config.wf(),
        mid.missing_item_qtys@.len() == mid.instance.items@.len(),
        mid.bin_qtys@.len() == mid.instance.bins@.len(),
        mid.empty_layouts@.len() == mid.instance.bins@.len(),
        forall|c: int|
            0 <= c < mid.empty_layouts@.len() ==> {
                &&& layout_fits(
                    #[trigger] mid.empty_layouts@[c],
                    mid.instance.items@.len() as int,
                    mid.instance.bins@,
                    mid.config,
                )
                &&& mid.empty_layouts@[c].placed_items@.len() == 0
                &&& mid.empty_layouts@[c].bin.id == c
            },
        forall|j: int|
            0 <= j < mid.layouts@.len() ==> layout_fits(
                #[trigger] mid.layouts@[j],
                mid.instance.items@.len() as int,
                mid.instance.bins@,
                mid.config,
            ) && (j != i ==> mid.layouts@[j].placed_items@.len() > 0),
        mid.layouts@[i].placed_items@.len() == 0,
        forall|t: int|
            0 <= t < mid.instance.items@.len() ==> (#[trigger] mid.missing_item_qtys@[t])
                + count_in_layouts(layout_views(mid.layouts@), t) == mid.instance.items@[t].1
                && mid.missing_item_qtys@[t] >= 0,
        forall|b: int|
            0 <= b < mid.instance.bins@.len() ==> (#[trigger] mid.bin_qtys@[b]) + count_bin(
                layout_views(mid.layouts@),
                b,
            ) == mid.instance.bins@[b].1,
        after.instance == mid.instance,
        after.config == mid.config,
        after.solution_id_counter == mid.solution_id_counter,
        after.empty_layouts@ == mid.empty_layouts@,
        after.missing_item_qtys@ == mid.missing_item_qtys@,
        after.layouts@ == mid.layouts@.remove(i),
        after.bin_qtys@ == mid.bin_qtys@.update(
            mid.layouts@[i].bin.id as int,
            (mid.bin_qtys@[mid.layouts@[i].bin.id as int] + 1) as usize,
        ),
        mid.bin_qtys@[mid.layouts@[i].bin.id as int] < usize::MAX,
    ensures
        Problem::wf(&after),
        layout_views(after.layouts@) == layout_views(mid.layouts@).remove(i),
{
    let v0 = layout_views(mid.layouts@);
    let v1 = layout_views(after.layouts@);
    assert(v1 =~= v0.remove(i));
    assert forall|j: int| 0 <= j < after.layouts@.len() implies layout_fits(
        #[trigger] after.layouts@[j],
        after.instance.items@.len() as int,
        after.instance.bins@,
        after.config,
    ) && after.layouts@[j].placed_items@.len() > 0 by {
        if j < i {
            assert(after.layouts@[j] == mid.layouts@[j]);
        } else {
            assert(after.layouts@[j] == mid.layouts@[j + 1]);
        }
    }
    assert forall|t: int| 0 <= t < after.instance.items@.len() implies (
    #[trigger] after.missing_item_qtys@[t]) + count_in_layouts(v1, t)
        == after.instance.items@[t].1 && after.missing_item_qtys@[t] >= 0 by {
        lemma_count_layout_remove(v0, i, t);
        lemma_count_item_empty(v0[i].placed, t);
        assert(mid.missing_item_qtys@[t] + count_in_layouts(v0, t) == mid.instance.items@[t].1);
    }
    assert forall|b: int| 0 <= b < after.instance.bins@.len() implies (
    #[trigger] after.bin_qtys@[b]) + count_bin(v1, b) == after.instance.bins@[b].1 by {
        lemma_count_bin_remove(v0, i, b);
        assert(mid.bin_qtys@[b] + count_bin(v0, b) == mid.instance.bins@[b].1);
    }
}

impl ProblemPrivate for BPProblem {
    open spec fn solution_counter(&self) -> usize {
        self.solution_id_counter
    }

    open spec fn observable(&self) -> ProblemView {
        ProblemView {
            layouts: layout_views(self.layouts@),
            missing_item_qtys: self.missing_item_qtys@,
            bin_qtys: self.bin_qtys@,
        }
    }

    fn next_solution_id(&mut self) -> (id: usize) {
        self.solution_id_counter = self.solution_id_counter + 1;
        self.solution_id_counter
    }

    fn register_included_item(&mut self, item_id: usize) {
        let m: isize = self.missing_item_qtys[item_id];
        self.missing_item_qtys.set(item_id, m - 1);
    }

    fn unregister_included_item(&mut self, item_id: usize) {
        let m: isize = self.missing_item_qtys[item_id];
        self.missing_item_qtys.set(item_id, m + 1);
    }
}

/// What a layout rejection means for the problem.
pub fn rejection_for(e: PlaceRejected) -> (r: Rejection)
    ensures
        Some(r) == rejection_of(Some(e)),
{
    match e {
        PlaceRejected::Defect(_) => Rejection::InvalidInput,
        PlaceRejected::Collision => Rejection::Collision,
        PlaceRejected::NoCapacity => Rejection::Collision,
    }
}

impl Problem for BPProblem {
    open spec fn wf(&self) -> bool {
        let views = layout_views(self.layouts@);
        &&& self.instance.wf()
        &&& self.config.wf()
        &&& forall|j: int|
            0 <= j < self.layouts@.len() ==> layout_fits(
                #[trigger] self.layouts@[j],
                self.instance.items@.len() as int,
                self.instance.bins@,
                self.config,
            ) && self.layouts@[j].placed_items@.len() > 0
        &&& self.empty_layouts@.len() == self.instance.bins@.len()
        &&& forall|c: int|
            0 <= c < self.empty_layouts@.len() ==> {
                &&& layout_fits(
                    #[trigger] self.empty_layouts@[c],
                    self.instance.items@.len() as int,
                    self.instance.bins@,
                    self.config,
                )
                &&& self.empty_layouts@[c].placed_items@.len() == 0
                &&& self.empty_layouts@[c].bin.id == c
            }
        &&& self.missing_item_qtys@.len() == self.instance.items@.len()
        &&& forall|t: int|
            0 <= t < self.instance.items@.len() ==> (#[trigger] self.missing_item_qtys@[t])
                + count_in_layouts(views, t) == self.instance.items@[t].1
                && self.missing_item_qtys@[t] >= 0
        &&& self.bin_qtys@.len() == self.instance.bins@.len()
        &&& forall|b: int|
            0 <= b < self.instance.bins@.len() ==> (#[trigger] self.bin_qtys@[b]) + count_bin(
                views,
                b,
            ) == self.instance.bins@[b].1
    }

    open spec fn place_spec(&self, i_opt: PlacingOption, r: PlaceResult, after: &Self) -> bool {
        let item_id = i_opt.item_id as int;
        match r {
            PlaceResult::Rejected(e) => self.spec_rejection(i_opt) == Some(e) && self.same_state(
                after,
            ),
            PlaceResult::Placed(index, uid) => {
                &&& self.spec_rejection(i_opt).is_none()
                &&& after.instance == self.instance
                &&& after.config == self.config
                &&& after.solution_id_counter == self.solution_id_counter
                &&& after.missing_item_qtys@ == self.missing_item_qtys@.update(
                    item_id,
                    (self.missing_item_qtys@[item_id] - 1) as isize,
                )
                &&& match i_opt.layout_index {
                    LayoutIndex::Existing(i) => {
                        &&& index == LayoutIndex::Existing(i)
                        &&& after.layouts@.len() == self.layouts@.len()
                        &&& forall|j: int|
                            0 <= j < self.layouts@.len() && j != i ==> after.layouts@[j]
                                == self.layouts@[j]
                        &&& placed_as(
                            self.layouts@[i as int],
                            after.layouts@[i as int],
                            self.instance.items@[item_id].0,
                            i_opt.d_transform,
                            uid,
                        )
                        &&& after.empty_layouts@ == self.empty_layouts@
                        &&& after.bin_qtys@ == self.bin_qtys@
                    },
                    LayoutIndex::Empty(b) => {
                        &&& index == LayoutIndex::Existing(self.layouts@.len() as usize)
                        &&& after.layouts@.len() == self.layouts@.len() + 1
                        &&& after.layouts@.drop_last() == self.layouts@
                        &&& placed_as(
                            self.empty_layouts@[b as int],
                            after.layouts@.last(),
                            self.instance.items@[item_id].0,
                            i_opt.d_transform,
                            uid,
                        )
                        &&& after.bin_qtys@ == self.bin_qtys@.update(
                            b as int,
                            (self.bin_qtys@[b as int] - 1) as usize,
                        )
                        &&& after.empty_layouts@.len() == self.empty_layouts@.len()
                        &&& after.empty_layouts@[b as int].next_uid == 0
                        &&& forall|c: int|
                            0 <= c < self.empty_layouts@.len() && c != b
                                ==> after.empty_layouts@[c] == self.empty_layouts@[c]
                    },
                }
            },
        }
    }

    open spec fn remove_spec(
        &self,
        layout_index: LayoutIndex,
        pi_uid: PlacedItemUID,
        r: Result<PlacedItem, RemoveRejected>,
        after: &Self,
    ) -> bool {
        let known = match layout_index {
            LayoutIndex::Existing(i) => i < self.layouts@.len(),
            LayoutIndex::Empty(_) => false,
        };
        let i = match layout_index {
            LayoutIndex::Existing(i) => i as int,
            LayoutIndex::Empty(_) => 0,
        };
        &&& after.instance == self.instance
        &&& after.config == self.config
        &&& after.solution_id_counter == self.solution_id_counter
        &&& after.empty_layouts@ == self.empty_layouts@
        &&& match r {
            Err(RemoveRejected::UnknownLayout) => !known && self.same_state(after),
            Err(RemoveRejected::UnknownItem) => known && self.removal(
                i,
                pi_uid,
                None::<PlacedItem>,
                after,
            ),
            Ok(p) => known && self.removal(i, pi_uid, Some(p), after),
        }
    }

    open spec fn saved_as(&self, solution: &Solution) -> bool {
        &&& snapshot_views(solution.layout_snapshots@) == layout_views(self.layouts@)
        &&& solution.placed_item_qtys@.len() == self.instance.items@.len()
        &&& solution.target_item_qtys@.len() == self.instance.items@.len()
        &&& forall|t: int|
            0 <= t < self.instance.items@.len() ==> {
                &&& #[trigger] solution.placed_item_qtys@[t] == self.instance.items@[t].1
                    - self.missing_item_qtys@[t]
                &&& solution.target_item_qtys@[t] == self.instance.items@[t].1
            }
        &&& solution.bin_qtys@ == self.bin_qtys@
    }

    open spec fn fits(&self, solution: &Solution) -> bool {
        &&& solution.wf()
        &&& forall|l: int|
            0 <= l < solution.layout_snapshots@.len() ==> snapshot_fits(
                #[trigger] solution.layout_snapshots@[l],
                self.instance.items@.len() as int,
                self.instance.bins@,
            )
        &&& solution.target_item_qtys@.len() == self.instance.items@.len()
        &&& forall|t: int|
            0 <= t < self.instance.items@.len() ==> #[trigger] solution.target_item_qtys@[t]
                == self.instance.items@[t].1
        &&& solution.bin_qtys@.len() == self.instance.bins@.len()
        &&& forall|b: int|
            0 <= b < self.instance.bins@.len() ==> (#[trigger] solution.bin_qtys@[b]) + count_bin(
                snapshot_views(solution.layout_snapshots@),
                b,
            ) == self.instance.bins@[b].1
    }

    open spec fn same_instance(&self, other: &Self) -> bool {
        other.instance == self.instance && other.config == self.config
    }

    open spec fn spec_layouts(&self) -> Seq<Layout> {
        self.layouts@
    }

    open spec fn spec_empty_layouts(&self) -> Seq<Layout> {
        self.empty_layouts@
    }

    fn place_item(&mut self, i_opt: &PlacingOption) -> (r: PlaceResult) {
        let item_id: usize = i_opt.item_id;
        if item_id >= self.instance.items.len() {
            return PlaceResult::Rejected(Rejection::InvalidInput);
        }
        match i_opt.layout_index {
            LayoutIndex::Existing(i) => {
                if i >= self.layouts.len() {
                    return PlaceResult::Rejected(Rejection::InvalidInput);
                }
                if self.missing_item_qtys[item_id] <= 0 {
                    return PlaceResult::Rejected(Rejection::QuantityExhausted);
                }
                match self.place_in_existing(i, item_id, i_opt.d_transform) {
                    Ok(uid) => PlaceResult::Placed(LayoutIndex::Existing(i), uid),
                    Err(e) => PlaceResult::Rejected(rejection_for(e)),
                }
            },
            LayoutIndex::Empty(b) => {
                if b >= self.empty_layouts.len() {
                    return PlaceResult::Rejected(Rejection::InvalidInput);
                }
                if self.missing_item_qtys[item_id] <= 0 {
                    return PlaceResult::Rejected(Rejection::QuantityExhausted);
                }
                if self.bin_qtys[b] == 0 {
                    return PlaceResult::Rejected(Rejection::NoStock);
                }
                let n: usize = self.layouts.len();
                match self.place_in_empty(b, item_id, i_opt.d_transform) {
                    Ok(uid) => PlaceResult::Placed(LayoutIndex::Existing(n), uid),
                    Err(e) => PlaceResult::Rejected(rejection_for(e)),
                }
            },
        }
    }

    fn remove_item(&mut self, layout_index: LayoutIndex, pi_uid: &PlacedItemUID) -> (r: Result<
        PlacedItem,
        RemoveRejected,
    >) {
        match layout_index {
            LayoutIndex::Empty(_) => Err(RemoveRejected::UnknownLayout),
            LayoutIndex::Existing(i) => {
                if i >= self.layouts.len() {
                    return Err(RemoveRejected::UnknownLayout);
                }
                match self.remove_from(i, *pi_uid) {
                    Some(p) => Ok(p),
                    None => Err(RemoveRejected::UnknownItem),
                }
            },
        }
    }

    fn create_solution(&mut self, old_solution: &Option<Solution>, time_stamp: u64) -> (s:
        Solution) {
        self.solution_id_counter = self.solution_id_counter + 1;
        let id: usize = self.solution_id_counter;
        let mut snapshots: Vec<LayoutSnapshot> = Vec::new();
        let mut l: usize = 0;
        while l < self.layouts.len()
            invariant
                l <= self.layouts.len(),
                Problem::wf(&*self),
                snapshots@.len() == l,
                forall|j: int|
                    0 <= j < l ==> {
                        &&& (#[trigger] snapshots@[j])@ == self.layouts@[j]@
                        &&& snapshot_fits(
                            snapshots@[j],
                            self.instance.items@.len() as int,
                            self.instance.bins@,
                        )
                    },
            decreases self.layouts.len() - l,
        {
            assert(layout_fits(
                self.layouts@[l as int],
                self.instance.items@.len() as int,
                self.instance.bins@,
                self.config,
            ));
            let snap: LayoutSnapshot = self.layouts[l].create_snapshot();
            proof {
                let layout = self.layouts@[l as int];
                assert(placed_views(snap.placed_items@) == placed_views(layout.placed_items@));
                assert(snap.placed_items@.len() == placed_views(snap.placed_items@).len());
                assert(layout.placed_items@.len() == placed_views(layout.placed_items@).len());
                assert forall|k: int| 0 <= k < snap.placed_items@.len() implies (
                #[trigger] snap.placed_items@[k]).item_id < self.instance.items@.len() by {
                    assert(placed_views(snap.placed_items@)[k] == snap.placed_items@[k]@);
                    assert(placed_views(layout.placed_items@)[k] == layout.placed_items@[k]@);
                    assert(layout.placed_items@[k].item_id < self.instance.items@.len());
                }
            }
            snapshots.push(snap);
            l += 1;
        }
        let usage: Usage = total_usage(&self.layouts);
        let placed: Vec<usize> = self.included_item_qtys();
        let mut target: Vec<usize> = Vec::new();
        let mut t: usize = 0;
        while t < self.instance.items.len()
            invariant
                t <= self.instance.items.len(),
                target@.len() == t,
                forall|j: int| 0 <= j < t ==> #[trigger] target@[j] == self.instance.items@[j].1,
            decreases self.instance.items.len() - t,
        {
            target.push(self.instance.items[t].1);
            t += 1;
        }
        let mut bin_qtys: Vec<usize> = Vec::new();
        let mut b: usize = 0;
        while b < self.bin_qtys.len()
            invariant
                b <= self.bin_qtys.len(),
                bin_qtys@ == self.bin_qtys@.subrange(0, b as int),
            decreases self.bin_qtys.len() - b,
        {
            bin_qtys.push(self.bin_qtys[b]);
            assert(bin_qtys@ =~= self.bin_qtys@.subrange(0, b as int + 1));
            b += 1;
        }
        proof {
            assert(bin_qtys@ =~= self.bin_qtys@);
            assert(snapshot_views(snapshots@) =~= layout_views(self.layouts@));
            assert(as_ints(target@) =~= demands(self.instance.items@));
            lemma_demands_sum(self.instance.items@, self.instance.items@.len());
            assert(demands(self.instance.items@).subrange(0, self.instance.items@.len() as int)
                =~= demands(self.instance.items@));
        }
        Solution::new(id, snapshots, usage, placed, target, bin_qtys, time_stamp)
    }

    fn restore_to_solution(&mut self, solution: &Solution) {
        let mut layouts: Vec<Layout> = Vec::new();
        let mut l: usize = 0;
        while l < solution.layout_snapshots.len()
            invariant
                l <= solution.layout_snapshots.len(),
                Problem::wf(&*self),
                self.fits(solution),
                layouts@.len() == l,
                forall|j: int|
                    0 <= j < l ==> {
                        &&& (#[trigger] layouts@[j])@ == solution.layout_snapshots@[j]@
                        &&& layout_fits(
                            layouts@[j],
                            self.instance.items@.len() as int,
                            self.instance.bins@,
                            self.config,
                        )
                        &&& layouts@[j].placed_items@.len() > 0
                    },
            decreases solution.layout_snapshots.len() - l,
        {
            let snap: &LayoutSnapshot = &solution.layout_snapshots[l];
            assert(snapshot_fits(
                solution.layout_snapshots@[l as int],
                self.instance.items@.len() as int,
                self.instance.bins@,
            ));
            let layout: Layout = Layout::from_snapshot(snap, self.config);
            proof {
                assert(placed_views(snap.placed_items@) == placed_views(layout.placed_items@));
                assert(snap.placed_items@.len() == placed_views(snap.placed_items@).len());
                assert(layout.placed_items@.len() == placed_views(layout.placed_items@).len());
                assert forall|k: int| 0 <= k < layout.placed_items@.len() implies (
                #[trigger] layout.placed_items@[k]).item_id < self.instance.items@.len() by {
                    assert(placed_views(snap.placed_items@)[k] == snap.placed_items@[k]@);
                    assert(placed_views(layout.placed_items@)[k] == layout.placed_items@[k]@);
                    assert(snap.placed_items@[k].item_id < self.instance.items@.len());
                }
            }
            layouts.push(layout);
            l += 1;
        }
        let mut missing: Vec<isize> = Vec::new();
        let mut t: usize = 0;
        while t < self.instance.items.len()
            invariant
                t <= self.instance.items.len(),
                Problem::wf(&*self),
                self.fits(solution),
                missing@.len() == t,
                forall|j: int|
                    0 <= j < t ==> #[trigger] missing@[j] == self.instance.items@[j].1
                        - solution.placed_item_qtys@[j] && missing@[j] >= 0,
            decreases self.instance.items.len() - t,
        {
            proof {
                crate::entities::solution::lemma_qty_bounded(self.instance.items@, t as int);
                assert(solution.placed_item_qtys@[t as int] <= solution.target_item_qtys@[t as int]);
            }
            missing.push(self.instance.items[t].1 as isize - solution.placed_item_qtys[t] as isize);
            t += 1;
        }
        let mut bin_qtys: Vec<usize> = Vec::new();
        let mut b: usize = 0;
        while b < solution.bin_qtys.len()
            invariant
                b <= solution.bin_qtys.len(),
                bin_qtys@ == solution.bin_qtys@.subrange(0, b as int),
            decreases solution.bin_qtys.len() - b,
        {
            bin_qtys.push(solution.bin_qtys[b]);
            assert(bin_qtys@ =~= solution.bin_qtys@.subrange(0, b as int + 1));
            b += 1;
        }
        proof {
            assert(bin_qtys@ =~= solution.bin_qtys@);
            assert(layout_views(layouts@) =~= snapshot_views(solution.layout_snapshots@));
        }
        self.layouts = layouts;
        self.missing_item_qtys = missing;
        self.bin_qtys = bin_qtys;
    }

    fn layouts(&self) -> (r: &Vec<Layout>) {
        &self.layouts
    }

    fn empty_layouts(&self) -> (r: &Vec<Layout>) {
        &self.empty_layouts
    }

    fn missing_item_qtys(&self) -> (r: &Vec<isize>) {
        &self.missing_item_qtys
    }

    fn bin_qtys(&self) -> (r: &Vec<usize>) {
        &self.bin_qtys
    }

    /// The share of the area of the bins in use that items cover.
    fn usage(&self) -> (r: Usage) {
        total_usage(&self.layouts)
    }

    /// The value of the bins in use together.
    fn used_bin_value(&self) -> (r: u128) {
        used_value(&self.layouts)
    }

    /// For each item, how many copies are placed.
    fn included_item_qtys(&self) -> (r: Vec<usize>)
        ensures
            forall|i: int|
                0 <= i < r@.len() ==> #[trigger] r@[i] == self.instance.items@[i].1
                    - self.missing_item_qtys@[i],
    {
        let mut r: Vec<usize> = Vec::new();
        let mut i: usize = 0;
        while i < self.missing_item_qtys.len()
            invariant
                i <= self.missing_item_qtys.len(),
                Problem::wf(self),
                r@.len() == i,
                forall|j: int|
                    0 <= j < i ==> #[trigger] r@[j] == self.instance.items@[j].1
                        - self.missing_item_qtys@[j] && r@[j] == count_in_layouts(
                        layout_views(self.layouts@),
                        j,
                    ),
            decreases self.missing_item_qtys.len() - i,
        {
            proof {
                crate::entities::solution::lemma_qty_bounded(self.instance.items@, i as int);
                lemma_count_in_layouts_nonneg(layout_views(self.layouts@), i as int);
            }
            r.push((self.instance.items[i].1 as isize - self.missing_item_qtys[i]) as usize);
            i += 1;
        }
        r
    }

    /// Whether a copy of the bin of the empty layout at `index` is left in
    /// stock.
    fn empty_layout_has_stock(&self, index: usize) -> (r: bool) {
        let bin_id: usize = self.empty_layouts[index].bin.id;
        self.bin_qtys[bin_id] > 0
    }

    /// The layout that the index names.
    fn get_layout(&self, index: LayoutIndex) -> (r: &Layout) {
        match index {
            LayoutIndex::Existing(i) => &self.layouts[i],
            LayoutIndex::Empty(i) => &self.empty_layouts[i],
        }
    }

    /// The position of the first layout whose usage is the lowest, if there
    /// is a layout.
    fn min_usage_layout_index(&self) -> (r: Option<usize>) {
        least_used_layout(&self.layouts)
    }

    fn flush_changes(&mut self) {
    }
}

} // verus!
