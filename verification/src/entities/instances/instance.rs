//! An instance of either kind.

use vstd::prelude::*;
use crate::entities::instances::bin_packing::BPInstance;
use crate::entities::instances::strip_packing::SPInstance;
use crate::entities::item::Item;

verus! {

/// Largest number of items, copies counted, of an instance.
pub const MAX_TOTAL_QTY: usize = 0x3FFF_FFFF;

/// An instance of bin packing or of strip packing.
#[derive(Debug)]
pub enum Instance {
    BP(BPInstance),
    SP(SPInstance),
}

/// The demands of the first `k` items together.
pub open spec fn total_qty(items: Seq<(Item, usize)>, k: nat) -> int
    decreases k,
{
    if k == 0 {
        0
    } else {
        total_qty(items, (k - 1) as nat) + items[k - 1].1
    }
}

/// Twice the area of the first `k` items, each counted as often as demanded.
pub open spec fn total_item_area(items: Seq<(Item, usize)>, k: nat) -> int
    decreases k,
{
    if k == 0 {
        0
    } else {
        total_item_area(items, (k - 1) as nat) + items[k - 1].0@.shape.double_area() * items[k
            - 1].1
    }
}

/// Every item is well formed and carries its position as identifier, and
/// the demands add up to no more than `MAX_TOTAL_QTY`.
pub open spec fn items_ok(items: Seq<(Item, usize)>) -> bool {
    &&& forall|i: int| 0 <= i < items.len() ==> (#[trigger] items[i]).0.wf() && items[i].0.id == i
    &&& total_qty(items, items.len()) <= MAX_TOTAL_QTY
}

/// A part of the demands is no more than the whole.
pub proof fn lemma_total_qty_monotone(items: Seq<(Item, usize)>, a: nat, b: nat)
    requires
        a <= b,
    ensures
        0 <= total_qty(items, a) <= total_qty(items, b),
    decreases b,
{
    if a < b {
        lemma_total_qty_monotone(items, a, (b - 1) as nat);
    } else if a > 0 {
        lemma_total_qty_monotone(items, (a - 1) as nat, (a - 1) as nat);
    }
}

/// The area of the items is bounded by their number.
pub proof fn lemma_total_item_area_bound(items: Seq<(Item, usize)>, k: nat)
    requires
        k <= items.len(),
        forall|i: int| 0 <= i < items.len() ==> (#[trigger] items[i]).0.wf(),
    ensures
        0 <= total_item_area(items, k) <= 0x4000_0000_0000_0000 * total_qty(items, k),
    decreases k,
{
    if k > 0 {
        lemma_total_item_area_bound(items, (k - 1) as nat);
        let item = items[k - 1].0;
        let q = items[k - 1].1 as int;
        assert(item.wf());
        lemma_polygon_area_bound(item.shape@);
        let a = item@.shape.double_area();
        assert(0 <= a * q <= 0x4000_0000_0000_0000 * q) by (nonlinear_arith)
            requires
                0 <= a <= 0x4000_0000_0000_0000,
                0 <= q,
        ;
    }
}

/// Twice the area of a polygon is at most twice that of the largest box.
pub proof fn lemma_polygon_area_bound(p: crate::geometry::simple_polygon::PolygonView)
    requires
        p.wf(),
    ensures
        0 < p.double_area() <= 0x4000_0000_0000_0000,
{
    crate::geometry::arith::lemma_mul_bound(
        p.bbox.spec_width(),
        p.bbox.spec_height(),
        0x4000_0000,
        0x4000_0000,
    );
}

/// Tells whether the items can make an instance.
pub fn check_items(items: &Vec<(Item, usize)>) -> (r: bool)
    requires
        forall|i: int| 0 <= i < items@.len() ==> (#[trigger] items@[i]).0.wf(),
    ensures
        r == items_ok(items@),
{
    let mut total: usize = 0;
    let mut i: usize = 0;
    while i < items.len()
        invariant
            i <= items.len(),
            forall|j: int| 0 <= j < items@.len() ==> (#[trigger] items@[j]).0.wf(),
            forall|j: int| 0 <= j < i ==> (#[trigger] items@[j]).0.id == j,
            total == total_qty(items@, i as nat),
            total <= MAX_TOTAL_QTY,
        decreases items.len() - i,
    {
        let qty: usize = items[i].1;
        if items[i].0.id != i {
            assert(!(items@[i as int].0.id == i));
            return false;
        }
        if qty > MAX_TOTAL_QTY - total {
            proof {
                lemma_total_qty_monotone(items@, (i + 1) as nat, items@.len());
            }
            return false;
        }
        total = total + qty;
        i += 1;
    }
    true
}

impl Instance {
    pub open spec fn wf(&self) -> bool {
        match self {
            Instance::BP(i) => i.wf(),
            Instance::SP(i) => i.wf(),
        }
    }

    /// The items with their demands.
    pub open spec fn spec_items(&self) -> Seq<(Item, usize)> {
        match self {
            Instance::BP(i) => i.items@,
            Instance::SP(i) => i.items@,
        }
    }

    pub fn items(&self) -> (r: &Vec<(Item, usize)>)
        ensures
            r@ == self.spec_items(),
    {
        match self {
            Instance::BP(i) => &i.items,
            Instance::SP(i) => &i.items,
        }
    }

    /// The item with the given identifier.
    pub fn item(&self, id: usize) -> (r: &Item)
        requires
            id < self.spec_items().len(),
        ensures
            *r == self.spec_items()[id as int].0,
    {
        match self {
            Instance::BP(i) => &i.items[id].0,
            Instance::SP(i) => &i.items[id].0,
        }
    }

    /// How many copies of the item are demanded.
    pub fn item_qty(&self, id: usize) -> (r: usize)
        requires
            id < self.spec_items().len(),
        ensures
            r == self.spec_items()[id as int].1,
    {
        match self {
            Instance::BP(i) => i.items[id].1,
            Instance::SP(i) => i.items[id].1,
        }
    }

    /// How many items are demanded, copies counted.
    pub fn total_item_qty(&self) -> (r: usize)
        requires
            self.wf(),
        ensures
            r == total_qty(self.spec_items(), self.spec_items().len()),
    {
        sum_qtys(self.items())
    }

    /// Twice the area of the items demanded, copies counted.
    pub fn item_area(&self) -> (r: u128)
        requires
            self.wf(),
        ensures
            r == total_item_area(self.spec_items(), self.spec_items().len()),
    {
        sum_item_area(self.items())
    }
}

/// Adds up the demands.
pub fn sum_qtys(items: &Vec<(Item, usize)>) -> (r: usize)
    requires
        items_ok(items@),
    ensures
        r == total_qty(items@, items@.len()),
{
    let mut total: usize = 0;
    let mut i: usize = 0;
    while i < items.len()
        invariant
            i <= items.len(),
            items_ok(items@),
            total == total_qty(items@, i as nat),
        decreases items.len() - i,
    {
        proof {
            lemma_total_qty_monotone(items@, (i + 1) as nat, items@.len());
        }
        total = total + items[i].1;
        i += 1;
    }
    total
}

/// Adds up the areas of the items, copies counted.
pub fn sum_item_area(items: &Vec<(Item, usize)>) -> (r: u128)
    requires
        items_ok(items@),
    ensures
        r == total_item_area(items@, items@.len()),
{
    let mut total: u128 = 0;
    let mut i: usize = 0;
    while i < items.len()
        invariant
            i <= items.len(),
            items_ok(items@),
            total == total_item_area(items@, i as nat),
        decreases items.len() - i,
    {
        proof {
            lemma_total_qty_monotone(items@, (i + 1) as nat, items@.len());
            lemma_total_item_area_bound(items@, (i + 1) as nat);
            lemma_total_item_area_bound(items@, i as nat);
            assert(items@[i as int].0.wf());
            lemma_polygon_area_bound(items@[i as int].0.shape@);
            crate::geometry::arith::lemma_mul_bound(
                items@[i as int].0@.shape.double_area(),
                items@[i as int].1 as int,
                0x4000_0000_0000_0000,
                0x7FFF_FFFF,
            );
            assert(0x4000_0000_0000_0000 * total_qty(items@, (i + 1) as nat)
                <= 0x4000_0000_0000_0000 * 0x7FFF_FFFF) by (nonlinear_arith)
                requires
                    total_qty(items@, (i + 1) as nat) <= 0x7FFF_FFFF,
            ;
        }
        let area: u64 = items[i].0.shape.double_area();
        total = total + (area as u128) * (items[i].1 as u128);
        i += 1;
    }
    total
}

/// Demands add up alike where they are alike.
pub proof fn lemma_same_total_qty(a: Seq<(Item, usize)>, b: Seq<(Item, usize)>, k: nat)
    requires
        k <= a.len(),
        a.len() == b.len(),
        forall|i: int| 0 <= i < a.len() ==> (#[trigger] a[i]).1 == b[i].1,
    ensures
        total_qty(a, k) == total_qty(b, k),
    decreases k,
{
    if k > 0 {
        lemma_same_total_qty(a, b, (k - 1) as nat);
    }
}

/// Copies of the items with their demands.
pub fn clone_items(items: &Vec<(Item, usize)>) -> (r: Vec<(Item, usize)>)
    requires
        items_ok(items@),
    ensures
        items_ok(r@),
        r@.len() == items@.len(),
        forall|i: int|
            0 <= i < items@.len() ==> (#[trigger] r@[i]).0@ == items@[i].0@ && r@[i].1
                == items@[i].1,
{
    let mut r: Vec<(Item, usize)> = Vec::new();
    let mut i: usize = 0;
    while i < items.len()
        invariant
            i <= items.len(),
            items_ok(items@),
            r@.len() == i,
            forall|j: int|
                0 <= j < i ==> (#[trigger] r@[j]).0@ == items@[j].0@ && r@[j].1 == items@[j].1,
        decreases items.len() - i,
    {
        let item: &Item = &items[i].0;
        r.push((item.clone_with_id(item.id), items[i].1));
        i += 1;
    }
    proof {
        assert forall|j: int| 0 <= j < r@.len() implies (#[trigger] r@[j]).0.wf() && r@[j].0.id
            == j by {
            assert(r@[j].0@ == items@[j].0@);
            assert(items@[j].0.wf());
        }
        lemma_same_total_qty(r@, items@, r@.len());
    }
    r
}

} // verus!
