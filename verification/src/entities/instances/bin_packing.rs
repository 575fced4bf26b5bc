//! Instances of bin packing.

use vstd::prelude::*;
use crate::entities::bin::{bin_sketches, Bin};
use crate::entities::instances::instance::{check_items, clone_items, items_ok};
use crate::entities::item::Item;
use crate::entities::layout::lemma_same_bin_sketches;

verus! {

/// Items to place into bins of a finite stock.
#[derive(Debug)]
pub struct BPInstance {
    /// The items, each with the number of copies demanded.
    pub items: Vec<(Item, usize)>,
    /// The bins, each with the number of copies in stock.
    pub bins: Vec<(Bin, usize)>,
}

/// Every bin is well formed and carries its position as identifier.
pub open spec fn bins_ok(bins: Seq<(Bin, usize)>) -> bool {
    forall|i: int| 0 <= i < bins.len() ==> (#[trigger] bins[i]).0.wf() && bins[i].0.id == i
}

impl BPInstance {
    pub open spec fn wf(&self) -> bool {
        items_ok(self.items@) && bins_ok(self.bins@)
    }

    /// The instance with the given items and bins, unless an identifier is
    /// not the position of its owner or the demands are too many.
    pub fn new(items: Vec<(Item, usize)>, bins: Vec<(Bin, usize)>) -> (r: Option<BPInstance>)
        requires
            forall|i: int| 0 <= i < items@.len() ==> (#[trigger] items@[i]).0.wf(),
            forall|i: int| 0 <= i < bins@.len() ==> (#[trigger] bins@[i]).0.wf(),
        ensures
            r.is_some() == (items_ok(items@) && bins_ok(bins@)),
            r.is_some() ==> r.unwrap().wf() && r.unwrap().items == items && r.unwrap().bins == bins,
    {
        if !check_items(&items) {
            return None;
        }
        let mut i: usize = 0;
        while i < bins.len()
            invariant
                i <= bins.len(),
                forall|j: int| 0 <= j < bins@.len() ==> (#[trigger] bins@[j]).0.wf(),
                forall|j: int| 0 <= j < i ==> (#[trigger] bins@[j]).0.id == j,
            decreases bins.len() - i,
        {
            if bins[i].0.id != i {
                assert(!(bins@[i as int].0.id == i));
                return None;
            }
            i += 1;
        }
        Some(BPInstance { items, bins })
    }

    /// A copy of the instance.
    pub fn clone_instance(&self) -> (r: BPInstance)
        requires
            self.wf(),
        ensures
            r.wf(),
            r.items@.len() == self.items@.len(),
            forall|i: int|
                0 <= i < self.items@.len() ==> (#[trigger] r.items@[i]).0@ == self.items@[i].0@
                    && r.items@[i].1 == self.items@[i].1,
            r.bins@.len() == self.bins@.len(),
            forall|b: int|
                0 <= b < self.bins@.len() ==> {
                    &&& (#[trigger] r.bins@[b]).1 == self.bins@[b].1
                    &&& r.bins@[b].0.id == self.bins@[b].0.id
                    &&& r.bins@[b].0.value == self.bins@[b].0.value
                    &&& r.bins@[b].0.area2 == self.bins@[b].0.area2
                    &&& r.bins@[b].0.pretransform == self.bins@[b].0.pretransform
                    &&& r.bins@[b].0.outer@ == self.bins@[b].0.outer@
                    &&& bin_sketches(r.bins@[b].0) == bin_sketches(self.bins@[b].0)
                },
    {
        let items: Vec<(Item, usize)> = clone_items(&self.items);
        let mut bins: Vec<(Bin, usize)> = Vec::new();
        let mut b: usize = 0;
        while b < self.bins.len()
            invariant
                b <= self.bins.len(),
                self.wf(),
                bins@.len() == b,
                forall|c: int|
                    0 <= c < b ==> {
                        &&& (#[trigger] bins@[c]).1 == self.bins@[c].1
                        &&& bins@[c].0.wf()
                        &&& bins@[c].0.id == self.bins@[c].0.id
                        &&& bins@[c].0.value == self.bins@[c].0.value
                        &&& bins@[c].0.area2 == self.bins@[c].0.area2
                        &&& bins@[c].0.pretransform == self.bins@[c].0.pretransform
                        &&& bins@[c].0.outer@ == self.bins@[c].0.outer@
                        &&& bin_sketches(bins@[c].0) == bin_sketches(self.bins@[c].0)
                    },
            decreases self.bins.len() - b,
        {
            assert(self.bins@[b as int].0.wf());
            let bin: Bin = self.bins[b].0.clone_bin();
            proof {
                lemma_same_bin_sketches(self.bins@[b as int].0, bin);
            }
            bins.push((bin, self.bins[b].1));
            b += 1;
        }
        BPInstance { items, bins }
    }
}

} // verus!
