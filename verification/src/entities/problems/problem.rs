//! What every kind of problem offers.

use vstd::prelude::*;
use crate::entities::layout::{Layout, LayoutView, Usage};
use crate::entities::placed_item::{PlacedItem, PlacedItemUID};
use crate::entities::placing_option::PlacingOption;
use crate::entities::problems::bin_packing::{bin_values, least_used, BPProblem};
use crate::entities::problems::counting::{bin_areas, count_in_layouts, used_areas};
use crate::entities::problems::strip_packing::SPProblem;
use crate::entities::solution::Solution;
use crate::util::sums::sum;

verus! {

/// Names a layout of a problem.
#[derive(Debug, Clone, Copy, Eq, PartialEq, Structural, Hash)]
pub enum LayoutIndex {
    /// A layout that holds at least one item, by its position among the
    /// problem's layouts.
    Existing(usize),
    /// A layout that holds no item, by its position among the problem's
    /// empty layouts.
    Empty(usize),
}

/// Why an item was not placed.
#[derive(Debug, Clone, Copy, Eq, PartialEq, Structural)]
pub enum Rejection {
    /// No copy of the bin is left in stock.
    NoStock,
    /// As many copies of the item are placed as are demanded.
    QuantityExhausted,
    /// The item would meet a hazard, or the layout has no room left for it.
    Collision,
    /// The proposal names no item or no layout of the problem, or a motion
    /// that cannot be applied to the item.
    InvalidInput,
}

/// What became of a proposal to place an item.
#[derive(Debug, Clone, Copy, Eq, PartialEq, Structural)]
pub enum PlaceResult {
    /// The item lies in the layout named, under the identifier given.
    Placed(LayoutIndex, PlacedItemUID),
    /// Nothing has changed.
    Rejected(Rejection),
}

/// Why no item was taken out.
#[derive(Debug, Clone, Copy, Eq, PartialEq, Structural)]
pub enum RemoveRejected {
    /// The index names no layout that holds items.
    UnknownLayout,
    /// No item of the layout has the identifier.
    UnknownItem,
}

/// What can be seen of a problem: its layouts, and the quantities of items
/// still to place and of bins still in stock.
pub struct ProblemView {
    pub layouts: Seq<LayoutView>,
    pub missing_item_qtys: Seq<isize>,
    pub bin_qtys: Seq<usize>,
}

/// The bookkeeping that the operations of a problem share.
pub trait ProblemPrivate: Sized {
    /// The identifier of the latest solution.
    spec fn solution_counter(&self) -> usize;

    /// What can be seen of the problem.
    spec fn observable(&self) -> ProblemView;

    /// The identifier of the next solution: one more than the latest.
    fn next_solution_id(&mut self) -> (id: usize)
        requires
            old(self).solution_counter() < usize::MAX,
        ensures
            id == old(self).solution_counter() + 1,
            final(self).solution_counter() == id,
            final(self).observable() == old(self).observable(),
    ;

    /// Counts one copy of the item as placed.
    fn register_included_item(&mut self, item_id: usize)
        requires
            item_id < old(self).observable().missing_item_qtys.len(),
            old(self).observable().missing_item_qtys[item_id as int] > isize::MIN,
        ensures
            final(self).solution_counter() == old(self).solution_counter(),
            final(self).observable() == (ProblemView {
                missing_item_qtys: old(self).observable().missing_item_qtys.update(
                    item_id as int,
                    (old(self).observable().missing_item_qtys[item_id as int] - 1) as isize,
                ),
                ..old(self).observable()
            }),
    ;

    /// Counts one copy of the item as no longer placed.
    fn unregister_included_item(&mut self, item_id: usize)
        requires
            item_id < old(self).observable().missing_item_qtys.len(),
            old(self).observable().missing_item_qtys[item_id as int] < isize::MAX,
        ensures
            final(self).solution_counter() == old(self).solution_counter(),
            final(self).observable() == (ProblemView {
                missing_item_qtys: old(self).observable().missing_item_qtys.update(
                    item_id as int,
                    (old(self).observable().missing_item_qtys[item_id as int] + 1) as isize,
                ),
                ..old(self).observable()
            }),
    ;
}

/// A problem: an instance in a state that can be changed. Items can be
/// placed and taken out, the state can be saved as a solution, and a saved
/// state can be restored.
pub trait Problem: ProblemPrivate {
    /// The state is consistent: in every layout the items lie inside the
    /// bin and meet neither each other nor a hazard that matters for them,
    /// and the quantities are those that the layouts give.
    spec fn wf(&self) -> bool;

    /// What `place_item` does with the proposal: `r` is its result and
    /// `after` the problem after it.
    spec fn place_spec(&self, i_opt: PlacingOption, r: PlaceResult, after: &Self) -> bool;

    /// What `remove_item` does: `r` is its result and `after` the problem
    /// after it.
    spec fn remove_spec(
        &self,
        layout_index: LayoutIndex,
        pi_uid: PlacedItemUID,
        r: Result<PlacedItem, RemoveRejected>,
        after: &Self,
    ) -> bool;

    /// `solution` holds what the problem holds.
    spec fn saved_as(&self, solution: &Solution) -> bool;

    /// `solution` can be restored into the problem: it is a sound solution
    /// of the problem's instance.
    spec fn fits(&self, solution: &Solution) -> bool;

    /// `other` is a problem of the same instance, with the same options.
    spec fn same_instance(&self, other: &Self) -> bool;

    /// The layouts that hold items.
    spec fn spec_layouts(&self) -> Seq<Layout>;

    /// The layouts that hold no item.
    spec fn spec_empty_layouts(&self) -> Seq<Layout>;

    /// Places an item as the proposal says, or rejects the proposal and
    /// changes nothing.
    fn place_item(&mut self, i_opt: &PlacingOption) -> (r: PlaceResult)
        requires
            old(self).wf(),
        ensures
            final(self).wf(),
            old(self).same_instance(final(self)),
            old(self).place_spec(*i_opt, r, final(self)),
    ;

    /// Takes the item with the given identifier out of the layout named.
    fn remove_item(&mut self, layout_index: LayoutIndex, pi_uid: &PlacedItemUID) -> (r: Result<
        PlacedItem,
        RemoveRejected,
    >)
        requires
            old(self).wf(),
        ensures
            final(self).wf(),
            old(self).same_instance(final(self)),
            old(self).remove_spec(layout_index, *pi_uid, r, final(self)),
    ;

    /// Saves the state as a solution made at `time_stamp`. The snapshots are
    /// taken anew, whatever the earlier solution holds.
    fn create_solution(&mut self, old_solution: &Option<Solution>, time_stamp: u64) -> (s:
        Solution)
        requires
            old(self).wf(),
            old(self).solution_counter() < usize::MAX,
        ensures
            final(self).wf(),
            old(self).same_instance(final(self)),
            final(self).observable() == old(self).observable(),
            final(self).solution_counter() == old(self).solution_counter() + 1,
            s.wf(),
            s.id == final(self).solution_counter(),
            s.time_stamp == time_stamp,
            final(self).saved_as(&s),
            final(self).fits(&s),
    ;

    /// Makes the problem hold what the solution holds. The solution's items
    /// are taken on trust: they are not tested for collisions again.
    fn restore_to_solution(&mut self, solution: &Solution)
        requires
            old(self).wf(),
            old(self).fits(solution),
        ensures
            final(self).wf(),
            old(self).same_instance(final(self)),
            final(self).saved_as(solution),
            final(self).solution_counter() == old(self).solution_counter(),
    ;

    /// The layouts that hold items.
    fn layouts(&self) -> (r: &Vec<Layout>)
        ensures
            r@ == self.spec_layouts(),
    ;

    /// The layouts that hold no item.
    fn empty_layouts(&self) -> (r: &Vec<Layout>)
        ensures
            r@ == self.spec_empty_layouts(),
    ;

    /// For each item, how many copies are demanded and not placed.
    fn missing_item_qtys(&self) -> (r: &Vec<isize>)
        ensures
            r@ == self.observable().missing_item_qtys,
    ;

    /// For each bin, how many copies are left in stock.
    fn bin_qtys(&self) -> (r: &Vec<usize>)
        ensures
            r@ == self.observable().bin_qtys,
    ;

    /// The share of the area of the bins in use that items cover.
    fn usage(&self) -> (r: Usage)
        requires
            self.wf(),
        ensures
            r.used == sum(used_areas(self.observable().layouts)),
            r.total == sum(bin_areas(self.observable().layouts)),
    ;

    /// The value of the bins in use together.
    fn used_bin_value(&self) -> (r: u128)
        ensures
            r == sum(bin_values(self.spec_layouts())),
    ;

    /// For each item, how many copies are placed.
    fn included_item_qtys(&self) -> (r: Vec<usize>)
        requires
            self.wf(),
        ensures
            r@.len() == self.observable().missing_item_qtys.len(),
            forall|i: int|
                0 <= i < r@.len() ==> #[trigger] r@[i] == count_in_layouts(
                    self.observable().layouts,
                    i,
                ),
    ;

    /// Whether a copy of the bin of the empty layout at `index` is left in
    /// stock.
    fn empty_layout_has_stock(&self, index: usize) -> (r: bool)
        requires
            self.wf(),
            index < self.spec_empty_layouts().len(),
        ensures
            r == (self.observable().bin_qtys[self.spec_empty_layouts()[index as int].bin.id as int]
                > 0),
    ;

    /// The layout that the index names.
    fn get_layout(&self, index: LayoutIndex) -> (r: &Layout)
        requires
            match index {
                LayoutIndex::Existing(i) => i < self.spec_layouts().len(),
                LayoutIndex::Empty(i) => i < self.spec_empty_layouts().len(),
            },
        ensures
            *r == match index {
                LayoutIndex::Existing(i) => self.spec_layouts()[i as int],
                LayoutIndex::Empty(i) => self.spec_empty_layouts()[i as int],
            },
    ;

    /// The position of the first layout whose usage is the lowest, if there
    /// is a layout.
    fn min_usage_layout_index(&self) -> (r: Option<usize>)
        requires
            self.wf(),
        ensures
            match r {
                None => self.spec_layouts().len() == 0,
                Some(i) => i == least_used(self.observable().layouts, self.spec_layouts().len()),
            },
    ;

    /// Commits the changes that are pending in every layout. Every change is
    /// applied as it is made, so none is pending: the problem after the call
    /// is the problem before it, in every part.
    fn flush_changes(&mut self)
        ensures
            *final(self) == *old(self),
    ;
}

/// A problem of either kind.
#[derive(Debug)]
pub enum ProblemType {
    /// Bin packing.
    BP(BPProblem),
    /// Strip packing.
    SP(SPProblem),
}

impl ProblemPrivate for ProblemType {
    open spec fn solution_counter(&self) -> usize {
        match self {
            ProblemType::BP(p) => p.solution_counter(),
            ProblemType::SP(p) => p.solution_counter(),
        }
    }

    open spec fn observable(&self) -> ProblemView {
        match self {
            ProblemType::BP(p) => p.observable(),
            ProblemType::SP(p) => p.observable(),
        }
    }

    fn next_solution_id(&mut self) -> (id: usize) {
        match self {
            ProblemType::BP(p) => p.next_solution_id(),
            ProblemType::SP(p) => p.next_solution_id(),
        }
    }

    fn register_included_item(&mut self, item_id: usize) {
        match self {
            ProblemType::BP(p) => p.register_included_item(item_id),
            ProblemType::SP(p) => p.register_included_item(item_id),
        }
    }

    fn unregister_included_item(&mut self, item_id: usize) {
        match self {
            ProblemType::BP(p) => p.unregister_included_item(item_id),
            ProblemType::SP(p) => p.unregister_included_item(item_id),
        }
    }
}

impl Problem for ProblemType {
    open spec fn wf(&self) -> bool {
        match self {
            ProblemType::BP(p) => p.wf(),
            ProblemType::SP(p) => p.wf(),
        }
    }

    open spec fn place_spec(&self, i_opt: PlacingOption, r: PlaceResult, after: &Self) -> bool {
        match (self, after) {
            (ProblemType::BP(p), ProblemType::BP(q)) => p.place_spec(i_opt, r, q),
            (ProblemType::SP(p), ProblemType::SP(q)) => p.place_spec(i_opt, r, q),
            _ => false,
        }
    }

    open spec fn remove_spec(
        &self,
        layout_index: LayoutIndex,
        pi_uid: PlacedItemUID,
        r: Result<PlacedItem, RemoveRejected>,
        after: &Self,
    ) -> bool {
        match (self, after) {
            (ProblemType::BP(p), ProblemType::BP(q)) => p.remove_spec(layout_index, pi_uid, r, q),
            (ProblemType::SP(p), ProblemType::SP(q)) => p.remove_spec(layout_index, pi_uid, r, q),
            _ => false,
        }
    }

    open spec fn saved_as(&self, solution: &Solution) -> bool {
        match self {
            ProblemType::BP(p) => p.saved_as(solution),
            ProblemType::SP(p) => p.saved_as(solution),
        }
    }

    open spec fn fits(&self, solution: &Solution) -> bool {
        match self {
            ProblemType::BP(p) => p.fits(solution),
            ProblemType::SP(p) => p.fits(solution),
        }
    }

    open spec fn same_instance(&self, other: &Self) -> bool {
        match (self, other) {
            (ProblemType::BP(p), ProblemType::BP(q)) => p.same_instance(q),
            (ProblemType::SP(p), ProblemType::SP(q)) => p.same_instance(q),
            _ => false,
        }
    }

    open spec fn spec_layouts(&self) -> Seq<Layout> {
        match self {
            ProblemType::BP(p) => p.spec_layouts(),
            ProblemType::SP(p) => p.spec_layouts(),
        }
    }

    open spec fn spec_empty_layouts(&self) -> Seq<Layout> {
        match self {
            ProblemType::BP(p) => p.spec_empty_layouts(),
            ProblemType::SP(p) => p.spec_empty_layouts(),
        }
    }

    fn place_item(&mut self, i_opt: &PlacingOption) -> (r: PlaceResult) {
        match self {
            ProblemType::BP(p) => p.place_item(i_opt),
            ProblemType::SP(p) => p.place_item(i_opt),
        }
    }

    fn remove_item(&mut self, layout_index: LayoutIndex, pi_uid: &PlacedItemUID) -> (r: Result<
        PlacedItem,
        RemoveRejected,
    >) {
        match self {
            ProblemType::BP(p) => p.remove_item(layout_index, pi_uid),
            ProblemType::SP(p) => p.remove_item(layout_index, pi_uid),
        }
    }

    fn create_solution(&mut self, old_solution: &Option<Solution>, time_stamp: u64) -> (s:
        Solution) {
        match self {
            ProblemType::BP(p) => p.create_solution(old_solution, time_stamp),
            ProblemType::SP(p) => p.create_solution(old_solution, time_stamp),
        }
    }

    fn restore_to_solution(&mut self, solution: &Solution) {
        match self {
            ProblemType::BP(p) => p.restore_to_solution(solution),
            ProblemType::SP(p) => p.restore_to_solution(solution),
        }
    }

    fn layouts(&self) -> (r: &Vec<Layout>) {
        match self {
            ProblemType::BP(p) => p.layouts(),
            ProblemType::SP(p) => p.layouts(),
        }
    }

    fn empty_layouts(&self) -> (r: &Vec<Layout>) {
        match self {
            ProblemType::BP(p) => p.empty_layouts(),
            ProblemType::SP(p) => p.empty_layouts(),
        }
    }

    fn missing_item_qtys(&self) -> (r: &Vec<isize>) {
        match self {
            ProblemType::BP(p) => p.missing_item_qtys(),
            ProblemType::SP(p) => p.missing_item_qtys(),
        }
    }

    fn bin_qtys(&self) -> (r: &Vec<usize>) {
        match self {
            ProblemType::BP(p) => p.bin_qtys(),
            ProblemType::SP(p) => p.bin_qtys(),
        }
    }

    fn usage(&self) -> (r: Usage) {
        match self {
            ProblemType::BP(p) => p.usage(),
            ProblemType::SP(p) => p.usage(),
        }
    }

    fn used_bin_value(&self) -> (r: u128) {
        match self {
            ProblemType::BP(p) => p.used_bin_value(),
            ProblemType::SP(p) => p.used_bin_value(),
        }
    }

    fn included_item_qtys(&self) -> (r: Vec<usize>) {
        match self {
            ProblemType::BP(p) => p.included_item_qtys(),
            ProblemType::SP(p) => p.included_item_qtys(),
        }
    }

    fn empty_layout_has_stock(&self, index: usize) -> (r: bool) {
        match self {
            ProblemType::BP(p) => p.empty_layout_has_stock(index),
            ProblemType::SP(p) => p.empty_layout_has_stock(index),
        }
    }

    fn get_layout(&self, index: LayoutIndex) -> (r: &Layout) {
        match self {
            ProblemType::BP(p) => p.get_layout(index),
            ProblemType::SP(p) => p.get_layout(index),
        }
    }

    fn min_usage_layout_index(&self) -> (r: Option<usize>) {
        match self {
            ProblemType::BP(p) => p.min_usage_layout_index(),
            ProblemType::SP(p) => p.min_usage_layout_index(),
        }
    }

    fn flush_changes(&mut self) {
        match self {
            ProblemType::BP(p) => p.flush_changes(),
            ProblemType::SP(p) => p.flush_changes(),
        }
    }
}

/// Restoring gives back what was saved: a problem that holds what a
/// solution holds shows the layouts, the usages and the quantities of the
/// problem of the same instance that the solution was made of.
pub proof fn law_restore_gives_back(saved: ProblemType, solution: Solution, restored: ProblemType)
    requires
        saved.wf(),
        restored.wf(),
        saved.same_instance(&restored),
        saved.saved_as(&solution),
        restored.saved_as(&solution),
    ensures
        restored.observable() == saved.observable(),
{
    match (saved, restored) {
        (ProblemType::BP(p), ProblemType::BP(q)) => {
            assert(q.missing_item_qtys@ =~= p.missing_item_qtys@) by {
                assert forall|t: int| 0 <= t < p.missing_item_qtys@.len() implies q.missing_item_qtys@[t]
                    == p.missing_item_qtys@[t] by {
                    assert(solution.placed_item_qtys@[t] == p.instance.items@[t].1
                        - p.missing_item_qtys@[t]);
                    assert(solution.placed_item_qtys@[t] == q.instance.items@[t].1
                        - q.missing_item_qtys@[t]);
                }
            }
        },
        (ProblemType::SP(p), ProblemType::SP(q)) => {
            assert(q.missing_item_qtys@ =~= p.missing_item_qtys@) by {
                assert forall|t: int| 0 <= t < p.missing_item_qtys@.len() implies q.missing_item_qtys@[t]
                    == p.missing_item_qtys@[t] by {
                    assert(solution.placed_item_qtys@[t] == p.instance.items@[t].1
                        - p.missing_item_qtys@[t]);
                    assert(solution.placed_item_qtys@[t] == q.instance.items@[t].1
                        - q.missing_item_qtys@[t]);
                }
            }
        },
        _ => {},
    }
}

/// What holds of a problem after any sequence of placings and removals: in
/// every layout each item lies inside the bin and meets no hole and no zone
/// of a quality below its own, no two items meet, and of every item as many
/// copies are missing as are demanded and not placed, never less than none.
pub proof fn law_state_is_sound(problem: ProblemType)
    requires
        problem.wf(),
    ensures
        forall|l: int|
            0 <= l < problem.spec_layouts().len() ==> crate::entities::layout::placements_sound(
                (#[trigger] problem.spec_layouts()[l]).bin,
                problem.spec_layouts()[l].placed_items@,
            ),
        forall|t: int|
            0 <= t < problem.observable().missing_item_qtys.len() ==> (
            #[trigger] problem.observable().missing_item_qtys[t]) >= 0
                && problem.observable().missing_item_qtys[t] + crate::entities::problems::counting::count_in_layouts(
                problem.observable().layouts,
                t,
            ) == problem.demand(t),
{
    match problem {
        ProblemType::BP(p) => {
            assert forall|l: int| 0 <= l < p.layouts@.len() implies crate::entities::layout::placements_sound(
                (#[trigger] p.layouts@[l]).bin,
                p.layouts@[l].placed_items@,
            ) by {
                assert(crate::entities::problems::bin_packing::layout_fits(
                    p.layouts@[l],
                    p.instance.items@.len() as int,
                    p.instance.bins@,
                    p.config,
                ));
                crate::entities::layout::lemma_layout_wf(p.layouts@[l]);
            }
        },
        ProblemType::SP(p) => {
            crate::entities::layout::lemma_layout_wf(p.layouts@[0]);
        },
    }
}

impl ProblemType {
    /// How many copies of the item `t` the instance demands.
    pub open spec fn demand(&self, t: int) -> int {
        match self {
            ProblemType::BP(p) => p.instance.items@[t].1 as int,
            ProblemType::SP(p) => p.instance.items@[t].1 as int,
        }
    }
}

} // verus!
