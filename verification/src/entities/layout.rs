//! A bin with the items placed in it.

use vstd::prelude::*;
use crate::collision_detection::cd_engine::{
    any_hit,
    collides_with_hazard,
    sketch_collides,
    CDEngine,
};
use crate::collision_detection::hazard::{Hazard, HazardEntity};
use crate::collision_detection::hazard_filters::combo_haz_filter::CombinedHazardFilter;
use crate::collision_detection::hazard_filters::hazard_filter::HazardFilter;
use crate::collision_detection::hazard_filters::qz_haz_filter::QZHazardFilter;
use crate::entities::bin::{bin_sketches, hazards_of_bin, sketches, Bin, HazardSketch};
use crate::entities::item::Item;
use crate::entities::placed_item::{
    placement_defect,
    quality_relevant,
    PlacedItem,
    PlacedItemUID,
    PlacedItemView,
    PlacementDefect,
};
use crate::geometry::outline::signed_double_area;
use crate::geometry::overlap::shapes_overlap;
use crate::geometry::point::Point;
use crate::geometry::simple_polygon::{abs_int, moved_points, SimplePolygon};
use crate::geometry::transformation::DTransformation;
use crate::util::config::CDEConfig;

verus! {

/// The share of a bin's area that items cover: `used / total`, both in
/// doubled area units.
#[derive(Clone, Copy, Debug, PartialEq, Eq, Structural)]
pub struct Usage {
    pub used: u128,
    pub total: u128,
}

impl Usage {
    /// Whether this share is strictly below `other`.
    pub open spec fn spec_lt(self, other: Usage) -> bool {
        self.used * other.total < other.used * self.total
    }

    /// Tells whether this share is strictly below `other`.
    pub fn lt(&self, other: &Usage) -> (r: bool)
        requires
            self.used <= 0xFFFF_FFFF_FFFF_FFFF,
            self.total <= 0xFFFF_FFFF_FFFF_FFFF,
            other.used <= 0xFFFF_FFFF_FFFF_FFFF,
            other.total <= 0xFFFF_FFFF_FFFF_FFFF,
        ensures
            r == self.spec_lt(*other),
    {
        proof {
            crate::geometry::arith::lemma_mul_bound(
                self.used as int,
                other.total as int,
                0xFFFF_FFFF_FFFF_FFFF,
                0xFFFF_FFFF_FFFF_FFFF,
            );
            crate::geometry::arith::lemma_mul_bound(
                other.used as int,
                self.total as int,
                0xFFFF_FFFF_FFFF_FFFF,
                0xFFFF_FFFF_FFFF_FFFF,
            );
        }
        self.used * other.total < other.used * self.total
    }
}

/// Why an item was not placed in a layout.
#[derive(Clone, Copy, Debug, PartialEq, Eq, Structural)]
pub enum PlaceRejected {
    /// The layout has given out all its identifiers, or the item's area
    /// exceeds what is left of the bin's.
    NoCapacity,
    /// The item cannot be moved as asked.
    Defect(PlacementDefect),
    /// The moved item meets a hazard.
    Collision,
}

/// The views of the placed items.
pub open spec fn placed_views(placed: Seq<PlacedItem>) -> Seq<PlacedItemView> {
    Seq::new(placed.len(), |k: int| placed[k]@)
}

/// Twice the area of the placed items together.
pub open spec fn placed_area(placed: Seq<PlacedItem>) -> int
    decreases placed.len(),
{
    if placed.len() == 0 {
        0
    } else {
        placed_area(placed.drop_last()) + placed.last()@.shape.double_area()
    }
}

/// Each hazard is the hazard of the placed item at its position.
pub open spec fn hazards_match(placed: Seq<PlacedItem>, hazards: Seq<Hazard>) -> bool {
    &&& placed.len() == hazards.len()
    &&& forall|k: int|
        0 <= k < placed.len() ==> {
            &&& (#[trigger] hazards[k]).entity == (HazardEntity::PlacedItem {
                id: placed[k].uid.0,
            })
            &&& hazards[k].shape@ == placed[k].shape@
        }
}

/// Every identifier is below `next_uid` and no two placed items share one.
pub open spec fn uids_ok(placed: Seq<PlacedItem>, next_uid: usize) -> bool {
    &&& forall|k: int| 0 <= k < placed.len() ==> (#[trigger] placed[k]).uid.0 < next_uid
    &&& forall|i: int, j: int|
        0 <= i < placed.len() && 0 <= j < placed.len() && i != j ==> (#[trigger] placed[i]).uid != (
        #[trigger] placed[j]).uid
}

/// The polygon of outline `points`, of an item of the given base quality,
/// meets none of the hazards sketched that matter for it.
pub open spec fn respects_bin(
    points: Seq<Point>,
    base_quality: Option<usize>,
    sk: Seq<HazardSketch>,
) -> bool {
    forall|s: int|
        0 <= s < sk.len() && quality_relevant(base_quality, (#[trigger] sk[s]).0)
            ==> !sketch_collides(points, sk[s].0, sk[s].1.points)
}

/// Every placed item lies inside the bin and meets no hole and no zone of a
/// quality below its own, and no placed item meets one placed before it.
pub open spec fn placements_sound(bin: Bin, placed: Seq<PlacedItem>) -> bool {
    &&& forall|k: int|
        0 <= k < placed.len() ==> respects_bin(
            (#[trigger] placed[k]).shape.points@,
            placed[k].base_quality,
            bin_sketches(bin),
        )
    &&& forall|i: int, j: int|
        0 <= i < j < placed.len() ==> !shapes_overlap(
            (#[trigger] placed[j]).shape.points@,
            (#[trigger] placed[i]).shape.points@,
        )
}

/// Every placed item is well formed.
pub open spec fn all_placed_wf(placed: Seq<PlacedItem>) -> bool {
    forall|k: int| 0 <= k < placed.len() ==> (#[trigger] placed[k]).wf()
}

/// Whether the polygon of outline `shape`, of an item of the given base
/// quality, meets one of the hazards that matter for it.
pub open spec fn quality_hit(
    shape: Seq<Point>,
    hazards: Seq<Hazard>,
    base_quality: Option<usize>,
) -> bool {
    exists|i: int|
        0 <= i < hazards.len() && (#[trigger] hazards[i]).active && quality_relevant(
            base_quality,
            hazards[i].entity,
        ) && collides_with_hazard(shape, hazards[i])
}

/// One more placed item adds its area.
pub proof fn lemma_placed_area_push(placed: Seq<PlacedItem>, p: PlacedItem)
    ensures
        placed_area(placed.push(p)) == placed_area(placed) + p@.shape.double_area(),
{
    assert(placed.push(p).drop_last() =~= placed);
}

/// One placed item less takes its area away.
pub proof fn lemma_placed_area_remove(placed: Seq<PlacedItem>, k: int)
    requires
        0 <= k < placed.len(),
    ensures
        placed_area(placed.remove(k)) == placed_area(placed) - placed[k]@.shape.double_area(),
    decreases placed.len(),
{
    if k == placed.len() - 1 {
        assert(placed.remove(k) =~= placed.drop_last());
    } else {
        lemma_placed_area_remove(placed.drop_last(), k);
        assert(placed.remove(k).drop_last() =~= placed.drop_last().remove(k));
        assert(placed.remove(k).last() == placed.last());
    }
}

/// Placed items with the same views cover the same area.
pub proof fn lemma_placed_area_views(a: Seq<PlacedItem>, b: Seq<PlacedItem>)
    requires
        placed_views(a) == placed_views(b),
    ensures
        placed_area(a) == placed_area(b),
    decreases a.len(),
{
    assert(a.len() == placed_views(a).len());
    assert(b.len() == placed_views(b).len());
    if a.len() > 0 {
        assert(placed_views(a.drop_last()) =~= placed_views(a).drop_last());
        assert(placed_views(b.drop_last()) =~= placed_views(b).drop_last());
        lemma_placed_area_views(a.drop_last(), b.drop_last());
        assert(placed_views(a)[a.len() - 1] == a.last()@);
        assert(placed_views(b)[b.len() - 1] == b.last()@);
    }
}

/// No area is negative.
pub proof fn lemma_placed_area_nonneg(placed: Seq<PlacedItem>)
    ensures
        placed_area(placed) >= 0,
    decreases placed.len(),
{
    if placed.len() > 0 {
        lemma_placed_area_nonneg(placed.drop_last());
    }
}

/// A bin with the items placed in it and the engine that watches over them.
#[derive(Debug)]
pub struct Layout {
    pub id: usize,
    pub bin: Bin,
    /// The items placed, in the order of their placing.
    pub placed_items: Vec<PlacedItem>,
    pub cde: CDEngine,
    /// The identifier that the next placed item gets.
    pub next_uid: usize,
    /// Twice the area of the items placed.
    pub placed_area2: u128,
}

/// What a layout held at some moment.
#[derive(Debug)]
pub struct LayoutSnapshot {
    pub id: usize,
    pub bin: Bin,
    pub placed_items: Vec<PlacedItem>,
    pub usage: Usage,
    pub next_uid: usize,
}

/// What can be seen of a layout: which items lie where, and how much of
/// the bin they use.
pub struct LayoutView {
    pub id: usize,
    pub bin_id: usize,
    pub placed: Seq<PlacedItemView>,
    pub usage: Usage,
}

impl View for Layout {
    type V = LayoutView;

    open spec fn view(&self) -> LayoutView {
        LayoutView {
            id: self.id,
            bin_id: self.bin.id,
            placed: placed_views(self.placed_items@),
            usage: Usage { used: self.placed_area2, total: self.bin.area2 as u128 },
        }
    }
}

impl View for LayoutSnapshot {
    type V = LayoutView;

    open spec fn view(&self) -> LayoutView {
        LayoutView {
            id: self.id,
            bin_id: self.bin.id,
            placed: placed_views(self.placed_items@),
            usage: self.usage,
        }
    }
}

impl LayoutSnapshot {
    /// The placed items are sound for the bin, and the usage is theirs.
    pub closed spec fn wf(&self) -> bool {
        &&& self.bin.wf()
        &&& all_placed_wf(self.placed_items@)
        &&& uids_ok(self.placed_items@, self.next_uid)
        &&& placements_sound(self.bin, self.placed_items@)
        &&& self.usage.used == placed_area(self.placed_items@)
        &&& self.usage.total == self.bin.area2
        &&& self.usage.used <= self.usage.total
    }

    pub fn bin(&self) -> (r: &Bin)
        ensures
            r == &self.bin,
    {
        &self.bin
    }

    pub fn usage(&self) -> (r: Usage)
        ensures
            r == self.usage,
    {
        self.usage
    }

}

/// Copies of the placed items.
pub fn clone_placed_items(placed: &Vec<PlacedItem>) -> (r: Vec<PlacedItem>)
    ensures
        placed_views(r@) == placed_views(placed@),
        r@.len() == placed@.len(),
        forall|k: int| 0 <= k < placed@.len() ==> (#[trigger] r@[k])@ == placed@[k]@,
{
    let mut r: Vec<PlacedItem> = Vec::new();
    let mut i: usize = 0;
    while i < placed.len()
        invariant
            i <= placed.len(),
            r@.len() == i,
            forall|k: int| 0 <= k < i ==> (#[trigger] r@[k])@ == placed@[k]@,
        decreases placed.len() - i,
    {
        r.push(placed[i].clone_placed());
        i += 1;
    }
    assert(placed_views(r@) =~= placed_views(placed@));
    r
}

/// A copy of a bin has the sketches of the bin.
pub proof fn lemma_same_bin_sketches(a: Bin, b: Bin)
    requires
        a.outer@ == b.outer@,
        a.holes@.len() == b.holes@.len(),
        forall|i: int| 0 <= i < a.holes@.len() ==> (#[trigger] b.holes@[i])@ == a.holes@[i]@,
        a.quality_zones@.len() == b.quality_zones@.len(),
        forall|z: int|
            0 <= z < a.quality_zones@.len() ==> {
                &&& (#[trigger] b.quality_zones@[z]).quality == a.quality_zones@[z].quality
                &&& b.quality_zones@[z].zones@.len() == a.quality_zones@[z].zones@.len()
                &&& forall|i: int|
                    0 <= i < a.quality_zones@[z].zones@.len() ==> (
                    #[trigger] b.quality_zones@[z].zones@[i])@ == a.quality_zones@[z].zones@[i]@
            },
    ensures
        bin_sketches(a) == bin_sketches(b),
{
    assert(crate::entities::bin::hole_sketches(a.holes@) =~= crate::entities::bin::hole_sketches(
        b.holes@,
    ));
    lemma_same_zone_sketches(a.quality_zones@, b.quality_zones@, a.quality_zones@.len());
}

/// Zone lists with the same views have the same sketches.
pub proof fn lemma_same_zone_sketches(
    a: Seq<crate::entities::quality_zone::InferiorQualityZone>,
    b: Seq<crate::entities::quality_zone::InferiorQualityZone>,
    k: nat,
)
    requires
        k <= a.len(),
        a.len() == b.len(),
        forall|z: int|
            0 <= z < a.len() ==> {
                &&& (#[trigger] b[z]).quality == a[z].quality
                &&& b[z].zones@.len() == a[z].zones@.len()
                &&& forall|i: int|
                    0 <= i < a[z].zones@.len() ==> (#[trigger] b[z].zones@[i])@ == a[z].zones@[i]@
            },
    ensures
        crate::entities::bin::all_zone_sketches(a, k) == crate::entities::bin::all_zone_sketches(
            b,
            k,
        ),
    decreases k,
{
    if k > 0 {
        lemma_same_zone_sketches(a, b, (k - 1) as nat);
        let za = a[k - 1];
        let zb = b[k - 1];
        assert(zb.quality == za.quality);
        assert(crate::entities::bin::zone_sketches(za, za.zones@.len() as int)
            =~= crate::entities::bin::zone_sketches(zb, zb.zones@.len() as int));
    }
}

/// Soundness depends on the views alone.
pub proof fn lemma_sound_by_views(a: Bin, pa: Seq<PlacedItem>, b: Bin, pb: Seq<PlacedItem>)
    requires
        bin_sketches(a) == bin_sketches(b),
        pa.len() == pb.len(),
        forall|k: int| 0 <= k < pa.len() ==> (#[trigger] pb[k])@ == pa[k]@,
        placements_sound(a, pa),
        all_placed_wf(pa),
    ensures
        placements_sound(b, pb),
        all_placed_wf(pb),
        forall|n: usize| uids_ok(pa, n) ==> uids_ok(pb, n),
{
    assert forall|k: int| 0 <= k < pb.len() implies respects_bin(
        (#[trigger] pb[k]).shape.points@,
        pb[k].base_quality,
        bin_sketches(b),
    ) by {
        assert(pb[k]@ == pa[k]@);
        assert(respects_bin(pa[k].shape.points@, pa[k].base_quality, bin_sketches(a)));
    }
    assert forall|i: int, j: int| 0 <= i < j < pb.len() implies !shapes_overlap(
        (#[trigger] pb[j]).shape.points@,
        (#[trigger] pb[i]).shape.points@,
    ) by {
        assert(pb[i]@ == pa[i]@);
        assert(pb[j]@ == pa[j]@);
        assert(!shapes_overlap(pa[j].shape.points@, pa[i].shape.points@));
    }
    assert forall|k: int| 0 <= k < pb.len() implies (#[trigger] pb[k]).wf() by {
        assert(pb[k]@ == pa[k]@);
        assert(pa[k].wf());
    }
    assert forall|n: usize| uids_ok(pa, n) implies uids_ok(pb, n) by {
        assert forall|k: int| 0 <= k < pb.len() implies (#[trigger] pb[k]).uid.0 < n by {
            assert(pb[k]@ == pa[k]@);
            assert(pa[k].uid.0 < n);
        }
        assert forall|i: int, j: int|
            0 <= i < pb.len() && 0 <= j < pb.len() && i != j implies (#[trigger] pb[i]).uid != (
        #[trigger] pb[j]).uid by {
            assert(pb[i]@ == pa[i]@);
            assert(pb[j]@ == pa[j]@);
            assert(pa[i].uid != pa[j].uid);
        }
    }
}

/// Tells whether the polygon, of an item of the given base quality, meets a
/// hazard of the engine that matters for it.
pub fn collides_for_quality(cde: &CDEngine, shape: &SimplePolygon, base_quality: Option<usize>) -> (r:
    bool)
    requires
        cde.wf(),
        shape.wf(),
    ensures
        r == (quality_hit(shape.points@, cde.static_hazards@, base_quality) || quality_hit(
            shape.points@,
            cde.dynamic_hazards@,
            base_quality,
        )),
{
    match base_quality {
        Some(q) => {
            let filter: QZHazardFilter = QZHazardFilter { cutoff_quality: q };
            let r: bool = cde.poly_collides(shape, &filter);
            proof {
                lemma_hit_by_filter(shape.points@, cde.static_hazards@, base_quality, filter);
                lemma_hit_by_filter(shape.points@, cde.dynamic_hazards@, base_quality, filter);
            }
            r
        },
        None => {
            let filter: CombinedHazardFilter = CombinedHazardFilter::new();
            let r: bool = cde.poly_collides(shape, &filter);
            proof {
                lemma_hit_by_filter(shape.points@, cde.static_hazards@, base_quality, filter);
                lemma_hit_by_filter(shape.points@, cde.dynamic_hazards@, base_quality, filter);
            }
            r
        },
    }
}

/// A filter that deems relevant what matters for a base quality finds the
/// hits that matter for it.
pub proof fn lemma_hit_by_filter<F: HazardFilter>(
    shape: Seq<Point>,
    hazards: Seq<Hazard>,
    base_quality: Option<usize>,
    filter: F,
)
    requires
        forall|e: HazardEntity|
            #[trigger] filter.spec_is_relevant(e) == quality_relevant(base_quality, e),
    ensures
        any_hit(shape, hazards, filter, hazards.len() as int) == quality_hit(
            shape,
            hazards,
            base_quality,
        ),
{
    if any_hit(shape, hazards, filter, hazards.len() as int) {
        let i = choose|i: int|
            0 <= i < hazards.len() && (#[trigger] hazards[i]).active && filter.spec_is_relevant(
                hazards[i].entity,
            ) && collides_with_hazard(shape, hazards[i]);
        assert(quality_relevant(base_quality, hazards[i].entity));
    }
    if quality_hit(shape, hazards, base_quality) {
        let i = choose|i: int|
            0 <= i < hazards.len() && (#[trigger] hazards[i]).active && quality_relevant(
                base_quality,
                hazards[i].entity,
            ) && collides_with_hazard(shape, hazards[i]);
        assert(filter.spec_is_relevant(hazards[i].entity));
    }
}

impl Layout {
    /// The engine holds the hazards of the bin and of the placed items, the
    /// placed items are sound, and the area is theirs and within the bin's.
    pub closed spec fn wf(&self) -> bool {
        &&& self.bin.wf()
        &&& self.cde.wf()
        &&& self.cde.bbox == self.bin.outer.bbox
        &&& hazards_of_bin(self.bin, self.cde.static_hazards@)
        &&& hazards_match(self.placed_items@, self.cde.dynamic_hazards@)
        &&& all_placed_wf(self.placed_items@)
        &&& uids_ok(self.placed_items@, self.next_uid)
        &&& placements_sound(self.bin, self.placed_items@)
        &&& self.placed_area2 == placed_area(self.placed_items@)
        &&& self.placed_area2 <= self.bin.area2
    }

    /// The layout of the bin with no item placed.
    pub fn new(id: usize, bin: Bin, config: CDEConfig) -> (layout: Layout)
        requires
            bin.wf(),
            config.wf(),
        ensures
            layout.wf(),
            layout.id == id,
            layout.bin == bin,
            layout.placed_items@.len() == 0,
            layout.next_uid == 0,
            layout.cde.config == config,
    {
        let hazards: Vec<Hazard> = bin.generate_hazards();
        let bbox = bin.outer.bbox;
        let cde: CDEngine = CDEngine::new(bbox, hazards, config);
        Layout { id, bin, placed_items: Vec::new(), cde, next_uid: 0, placed_area2: 0 }
    }

    /// Why the item, moved by `d_transf`, cannot be placed, if it cannot.
    pub open spec fn spec_rejects(&self, item: Item, d_transf: DTransformation) -> Option<
        PlaceRejected,
    > {
        let points = moved_points(item.shape.points@, d_transf.spec_compose());
        if self.next_uid == usize::MAX {
            Some(PlaceRejected::NoCapacity)
        } else if placement_defect(item, d_transf).is_some() {
            Some(PlaceRejected::Defect(placement_defect(item, d_transf).unwrap()))
        } else if quality_hit(points, self.cde.static_hazards@, item.base_quality) || quality_hit(
            points,
            self.cde.dynamic_hazards@,
            item.base_quality,
        ) {
            Some(PlaceRejected::Collision)
        } else if self.placed_area2 + abs_int(signed_double_area(points)) > self.bin.area2 {
            Some(PlaceRejected::NoCapacity)
        } else {
            None
        }
    }

    /// Places the item, moved by `d_transf`, unless it meets a hazard that
    /// matters for it. Nothing changes where the item is not placed.
    pub fn place(&mut self, item: &Item, d_transf: DTransformation) -> (r: Result<
        PlacedItemUID,
        PlaceRejected,
    >)
        requires
            old(self).wf(),
            item.wf(),
        ensures
            final(self).wf(),
            final(self).id == old(self).id,
            final(self).bin == old(self).bin,
            final(self).cde.config == old(self).cde.config,
            match r {
                Ok(uid) => {
                    &&& old(self).spec_rejects(*item, d_transf).is_none()
                    &&& uid == PlacedItemUID(old(self).next_uid)
                    &&& final(self).next_uid == old(self).next_uid + 1
                    &&& final(self).placed_items@.len() == old(self).placed_items@.len() + 1
                    &&& final(self).placed_items@.drop_last() == old(self).placed_items@
                    &&& final(self).placed_items@.last().uid == uid
                    &&& final(self).placed_items@.last().item_id == item.id
                    &&& final(self).placed_items@.last().d_transf == d_transf
                    &&& final(self).placed_items@.last().base_quality == item.base_quality
                    &&& final(self).placed_items@.last().shape.points@ == moved_points(
                        item.shape.points@,
                        d_transf.spec_compose(),
                    )
                },
                Err(e) => {
                    &&& old(self).spec_rejects(*item, d_transf) == Some(e)
                    &&& final(self).placed_items == old(self).placed_items
                    &&& final(self).next_uid == old(self).next_uid
                    &&& final(self).placed_area2 == old(self).placed_area2
                    &&& final(self).cde == old(self).cde
                },
            },
    {
        if self.next_uid == usize::MAX {
            return Err(PlaceRejected::NoCapacity);
        }
        let uid: PlacedItemUID = PlacedItemUID(self.next_uid);
        let placed: PlacedItem = match PlacedItem::new(
            item,
            d_transf,
            uid,
            self.cde.config.item_surrogate_config,
        ) {
            Ok(p) => p,
            Err(e) => {
                return Err(PlaceRejected::Defect(e));
            },
        };
        if collides_for_quality(&self.cde, &placed.shape, placed.base_quality) {
            return Err(PlaceRejected::Collision);
        }
        let area: u64 = placed.shape.double_area();
        proof {
            lemma_placed_area_nonneg(self.placed_items@);
        }
        if self.placed_area2 + area as u128 > self.bin.area2 as u128 {
            return Err(PlaceRejected::NoCapacity);
        }
        let hazard: Hazard = Hazard {
            entity: HazardEntity::PlacedItem { id: uid.0 },
            shape: placed.shape.clone_polygon(),
            active: true,
        };
        let ghost placed0 = self.placed_items@;
        let ghost dyn0 = self.cde.dynamic_hazards@;
        let ghost static0 = self.cde.static_hazards@;
        proof {
            lemma_new_placement_sound(self.bin, placed0, static0, dyn0, placed);
            lemma_placed_area_push(placed0, placed);
        }
        self.cde.register_hazard(hazard);
        self.placed_items.push(placed);
        self.next_uid = self.next_uid + 1;
        self.placed_area2 = self.placed_area2 + area as u128;
        proof {
            assert(self.placed_items@.drop_last() =~= placed0);
            assert forall|k: int| 0 <= k < self.placed_items@.len() implies {
                &&& (#[trigger] self.cde.dynamic_hazards@[k]).entity == (HazardEntity::PlacedItem {
                    id: self.placed_items@[k].uid.0,
                })
                &&& self.cde.dynamic_hazards@[k].shape@ == self.placed_items@[k].shape@
            } by {
                if k < placed0.len() {
                    assert(self.cde.dynamic_hazards@[k] == dyn0[k]);
                    assert(self.placed_items@[k] == placed0[k]);
                }
            }
            assert forall|k: int| 0 <= k < self.placed_items@.len() implies (
            #[trigger] self.placed_items@[k]).wf() by {
                if k < placed0.len() {
                    assert(self.placed_items@[k] == placed0[k]);
                }
            }
            assert(uids_ok(self.placed_items@, self.next_uid)) by {
                assert forall|k: int| 0 <= k < self.placed_items@.len() implies (
                #[trigger] self.placed_items@[k]).uid.0 < self.next_uid by {
                    if k < placed0.len() {
                        assert(self.placed_items@[k] == placed0[k]);
                    }
                }
                assert forall|i: int, j: int|
                    0 <= i < self.placed_items@.len() && 0 <= j < self.placed_items@.len() && i
                        != j implies (#[trigger] self.placed_items@[i]).uid != (
                #[trigger] self.placed_items@[j]).uid by {
                    if i < placed0.len() {
                        assert(self.placed_items@[i] == placed0[i]);
                    }
                    if j < placed0.len() {
                        assert(self.placed_items@[j] == placed0[j]);
                    }
                }
            }
        }
        Ok(uid)
    }

    /// Takes out the placed item with the given identifier, if there is one.
    pub fn remove(&mut self, uid: PlacedItemUID) -> (r: Option<PlacedItem>)
        requires
            old(self).wf(),
        ensures
            final(self).wf(),
            final(self).id == old(self).id,
            final(self).bin == old(self).bin,
            final(self).next_uid == old(self).next_uid,
            final(self).cde.config == old(self).cde.config,
            match r {
                Some(p) => exists|k: int|
                    0 <= k < old(self).placed_items@.len() && (
                    #[trigger] old(self).placed_items@[k]).uid == uid && p == old(self).placed_items@[k] && final(self).placed_items@ == old(self).placed_items@.remove(k),
                None => {
                    &&& forall|k: int|
                        0 <= k < old(self).placed_items@.len() ==> (
                        #[trigger] old(self).placed_items@[k]).uid != uid
                    &&& final(self).placed_items == old(self).placed_items
                    &&& final(self).placed_area2 == old(self).placed_area2
                    &&& final(self).cde == old(self).cde
                },
            },
    {
        let n: usize = self.placed_items.len();
        let mut k: usize = 0;
        while k < n && self.placed_items[k].uid.0 != uid.0
            invariant
                k <= n,
                n == self.placed_items@.len(),
                *self == *old(self),
                forall|j: int| 0 <= j < k ==> (#[trigger] self.placed_items@[j]).uid != uid,
            decreases n - k,
        {
            k += 1;
        }
        if k == n {
            return None;
        }
        let placed: PlacedItem = self.remove_at(k);
        Some(placed)
    }

    /// Takes out the placed item at position `k`.
    fn remove_at(&mut self, k: usize) -> (placed: PlacedItem)
        requires
            old(self).wf(),
            k < old(self).placed_items@.len(),
        ensures
            final(self).wf(),
            final(self).id == old(self).id,
            final(self).bin == old(self).bin,
            final(self).next_uid == old(self).next_uid,
            final(self).cde.config == old(self).cde.config,
            placed == old(self).placed_items@[k as int],
            final(self).placed_items@ == old(self).placed_items@.remove(k as int),
    {
        let ghost placed0 = self.placed_items@;
        let ghost dyn0 = self.cde.dynamic_hazards@;
        proof {
            assert forall|j: int| 0 <= j < dyn0.len() && j != k implies (#[trigger] dyn0[j]).entity
                != dyn0[k as int].entity by {
                assert(placed0[j].uid != placed0[k as int].uid);
            }
            lemma_placed_area_remove(placed0, k as int);
            lemma_placed_area_nonneg(placed0.remove(k as int));
            lemma_removal_keeps_sound(self.bin, placed0, k as int, self.next_uid);
            lemma_removal_keeps_match(placed0, dyn0, k as int);
        }
        let placed: PlacedItem = self.placed_items.remove(k);
        assert(placed.wf());
        let area: u64 = placed.shape.double_area();
        let gone: Hazard = self.cde.deregister_hazard(k);
        self.placed_area2 = self.placed_area2 - area as u128;
        placed
    }

    /// The share of the bin's area that the placed items cover.
    pub fn usage(&self) -> (r: Usage)
        requires
            self.wf(),
        ensures
            r == self@.usage,
            r.used == placed_area(self.placed_items@),
            r.used <= r.total,
            r.total == self.bin.area2,
            0 < r.total <= 0xFFFF_FFFF_FFFF_FFFF,
    {
        Usage { used: self.placed_area2, total: self.bin.area2 as u128 }
    }

    pub fn bin(&self) -> (r: &Bin)
        ensures
            r == &self.bin,
    {
        &self.bin
    }

    pub fn placed_items(&self) -> (r: &Vec<PlacedItem>)
        ensures
            r == &self.placed_items,
    {
        &self.placed_items
    }

    pub fn is_empty(&self) -> (r: bool)
        ensures
            r == (self.placed_items@.len() == 0),
    {
        self.placed_items.len() == 0
    }

    pub fn cde(&self) -> (r: &CDEngine)
        ensures
            r == &self.cde,
    {
        &self.cde
    }

    /// Commits the changes that are pending. Every change is applied as it is
    /// made, so nothing is pending and nothing changes.
    pub fn flush_changes(&mut self)
        ensures
            *final(self) == *old(self),
    {
    }

    /// What the layout holds now.
    pub fn create_snapshot(&self) -> (snapshot: LayoutSnapshot)
        requires
            self.wf(),
        ensures
            snapshot.wf(),
            snapshot@ == self@,
            bin_sketches(snapshot.bin) == bin_sketches(self.bin),
            snapshot.bin.area2 == self.bin.area2,
            snapshot.bin.value == self.bin.value,
            snapshot.bin.pretransform == self.bin.pretransform,
            snapshot.next_uid == self.next_uid,
    {
        let bin: Bin = self.bin.clone_bin();
        let placed_items: Vec<PlacedItem> = clone_placed_items(&self.placed_items);
        proof {
            lemma_same_bin_sketches(self.bin, bin);
            lemma_sound_by_views(self.bin, self.placed_items@, bin, placed_items@);
            lemma_placed_area_views(self.placed_items@, placed_items@);
        }
        LayoutSnapshot {
            id: self.id,
            bin,
            placed_items,
            usage: Usage { used: self.placed_area2, total: self.bin.area2 as u128 },
            next_uid: self.next_uid,
        }
    }

    /// The layout that holds what the snapshot holds. The snapshot's items
    /// are taken on trust: they are not tested for collisions again.
    pub fn from_snapshot(snapshot: &LayoutSnapshot, config: CDEConfig) -> (layout: Layout)
        requires
            snapshot.wf(),
            config.wf(),
        ensures
            layout.wf(),
            layout@ == snapshot@,
            bin_sketches(layout.bin) == bin_sketches(snapshot.bin),
            layout.bin.area2 == snapshot.bin.area2,
            layout.bin.value == snapshot.bin.value,
            layout.bin.pretransform == snapshot.bin.pretransform,
            layout.next_uid == snapshot.next_uid,
            layout.cde.config == config,
    {
        let bin: Bin = snapshot.bin.clone_bin();
        proof {
            lemma_same_bin_sketches(snapshot.bin, bin);
        }
        let mut layout: Layout = Layout::new(snapshot.id, bin, config);
        let n: usize = snapshot.placed_items.len();
        let mut k: usize = 0;
        while k < n
            invariant
                k <= n,
                n == snapshot.placed_items@.len(),
                snapshot.wf(),
                layout.bin.wf(),
                layout.cde.wf(),
                layout.cde.config == config,
                layout.cde.bbox == layout.bin.outer.bbox,
                hazards_of_bin(layout.bin, layout.cde.static_hazards@),
                hazards_match(layout.placed_items@, layout.cde.dynamic_hazards@),
                layout.id == snapshot.id,
                layout.bin.id == snapshot.bin.id,
                layout.bin.area2 == snapshot.bin.area2,
                layout.bin.value == snapshot.bin.value,
                layout.bin.pretransform == snapshot.bin.pretransform,
                bin_sketches(layout.bin) == bin_sketches(snapshot.bin),
                layout.placed_items@.len() == k,
                forall|j: int|
                    0 <= j < k ==> (#[trigger] layout.placed_items@[j])@
                        == snapshot.placed_items@[j]@,
            decreases n - k,
        {
            let p: PlacedItem = snapshot.placed_items[k].clone_placed();
            assert(snapshot.placed_items@[k as int].wf());
            let hazard: Hazard = Hazard {
                entity: HazardEntity::PlacedItem { id: p.uid.0 },
                shape: p.shape.clone_polygon(),
                active: true,
            };
            let ghost placed0 = layout.placed_items@;
            let ghost dyn0 = layout.cde.dynamic_hazards@;
            layout.cde.register_hazard(hazard);
            layout.placed_items.push(p);
            proof {
                assert forall|j: int| 0 <= j < layout.placed_items@.len() implies {
                    &&& (#[trigger] layout.cde.dynamic_hazards@[j]).entity == (
                    HazardEntity::PlacedItem { id: layout.placed_items@[j].uid.0 })
                    &&& layout.cde.dynamic_hazards@[j].shape@ == layout.placed_items@[j].shape@
                } by {
                    if j < placed0.len() {
                        assert(layout.cde.dynamic_hazards@[j] == dyn0[j]);
                        assert(layout.placed_items@[j] == placed0[j]);
                    }
                }
                assert forall|j: int| 0 <= j < k + 1 implies (#[trigger] layout.placed_items@[j])@
                    == snapshot.placed_items@[j]@ by {
                    if j < k {
                        assert(layout.placed_items@[j] == placed0[j]);
                    }
                }
            }
            k += 1;
        }
        layout.next_uid = snapshot.next_uid;
        layout.placed_area2 = snapshot.usage.used;
        proof {
            lemma_sound_by_views(
                snapshot.bin,
                snapshot.placed_items@,
                layout.bin,
                layout.placed_items@,
            );
            assert(placed_views(layout.placed_items@) =~= placed_views(snapshot.placed_items@));
            lemma_placed_area_views(layout.placed_items@, snapshot.placed_items@);
        }
        layout
    }

    /// Makes the layout hold what the snapshot holds.
    pub fn restore(&mut self, snapshot: &LayoutSnapshot)
        requires
            old(self).wf(),
            snapshot.wf(),
        ensures
            final(self).wf(),
            final(self)@ == snapshot@,
            bin_sketches(final(self).bin) == bin_sketches(snapshot.bin),
            final(self).bin.area2 == snapshot.bin.area2,
            final(self).bin.value == snapshot.bin.value,
            final(self).next_uid == snapshot.next_uid,
            final(self).cde.config == old(self).cde.config,
    {
        let config: CDEConfig = self.cde.config;
        *self = Layout::from_snapshot(snapshot, config);
    }
}

/// An item that meets no hazard that matters for it can join the placed
/// items.
pub proof fn lemma_new_placement_sound(
    bin: Bin,
    placed: Seq<PlacedItem>,
    static_hazards: Seq<Hazard>,
    dynamic_hazards: Seq<Hazard>,
    p: PlacedItem,
)
    requires
        placements_sound(bin, placed),
        hazards_of_bin(bin, static_hazards),
        hazards_match(placed, dynamic_hazards),
        crate::collision_detection::cd_engine::all_dynamic(dynamic_hazards),
        !quality_hit(p.shape.points@, static_hazards, p.base_quality),
        !quality_hit(p.shape.points@, dynamic_hazards, p.base_quality),
    ensures
        placements_sound(bin, placed.push(p)),
{
    let after = placed.push(p);
    let sk = bin_sketches(bin);
    assert(sketches(static_hazards) == sk);
    assert forall|s: int|
        0 <= s < sk.len() && quality_relevant(p.base_quality, (#[trigger] sk[s]).0)
            implies !sketch_collides(p.shape.points@, sk[s].0, sk[s].1.points) by {
        assert(sketches(static_hazards)[s] == (static_hazards[s].entity, static_hazards[s].shape@));
        assert(static_hazards[s].active);
    }
    assert forall|k: int| 0 <= k < after.len() implies respects_bin(
        (#[trigger] after[k]).shape.points@,
        after[k].base_quality,
        sk,
    ) by {
        if k < placed.len() {
            assert(after[k] == placed[k]);
        }
    }
    assert forall|i: int, j: int| 0 <= i < j < after.len() implies !shapes_overlap(
        (#[trigger] after[j]).shape.points@,
        (#[trigger] after[i]).shape.points@,
    ) by {
        assert(after[i] == placed[i]);
        if j < placed.len() {
            assert(after[j] == placed[j]);
        } else {
            assert(dynamic_hazards[i].active);
            assert(dynamic_hazards[i].shape@ == placed[i].shape@);
            assert(quality_relevant(p.base_quality, dynamic_hazards[i].entity));
            assert(!collides_with_hazard(p.shape.points@, dynamic_hazards[i]));
        }
    }
}

/// The hazards stay those of the placed items when an item and its hazard
/// are taken out.
pub proof fn lemma_removal_keeps_match(placed: Seq<PlacedItem>, hazards: Seq<Hazard>, k: int)
    requires
        0 <= k < placed.len(),
        hazards_match(placed, hazards),
        all_placed_wf(placed),
    ensures
        hazards_match(placed.remove(k), hazards.remove(k)),
        all_placed_wf(placed.remove(k)),
{
    let after = placed.remove(k);
    let dyn1 = hazards.remove(k);
    assert forall|j: int| 0 <= j < after.len() implies {
        &&& (#[trigger] dyn1[j]).entity == (HazardEntity::PlacedItem { id: after[j].uid.0 })
        &&& dyn1[j].shape@ == after[j].shape@
    } by {
        if j < k {
            assert(after[j] == placed[j]);
            assert(dyn1[j] == hazards[j]);
        } else {
            assert(after[j] == placed[j + 1]);
            assert(dyn1[j] == hazards[j + 1]);
        }
    }
    assert forall|j: int| 0 <= j < after.len() implies (#[trigger] after[j]).wf() by {
        if j < k {
            assert(after[j] == placed[j]);
        } else {
            assert(after[j] == placed[j + 1]);
        }
    }
}

/// The placed items stay sound when one of them is taken out.
pub proof fn lemma_removal_keeps_sound(bin: Bin, placed: Seq<PlacedItem>, k: int, next_uid: usize)
    requires
        0 <= k < placed.len(),
        placements_sound(bin, placed),
        uids_ok(placed, next_uid),
    ensures
        placements_sound(bin, placed.remove(k)),
        uids_ok(placed.remove(k), next_uid),
{
    let after = placed.remove(k);
    let f = |a: int| -> int {
        if a < k {
            a
        } else {
            a + 1
        }
    };
    assert forall|a: int| 0 <= a < after.len() implies #[trigger] after[a] == placed[f(a)] by {}
    assert forall|a: int| 0 <= a < after.len() implies respects_bin(
        (#[trigger] after[a]).shape.points@,
        after[a].base_quality,
        bin_sketches(bin),
    ) by {
        assert(after[a] == placed[f(a)]);
    }
    assert forall|i: int, j: int| 0 <= i < j < after.len() implies !shapes_overlap(
        (#[trigger] after[j]).shape.points@,
        (#[trigger] after[i]).shape.points@,
    ) by {
        assert(after[i] == placed[f(i)]);
        assert(after[j] == placed[f(j)]);
    }
    assert forall|a: int| 0 <= a < after.len() implies (#[trigger] after[a]).uid.0 < next_uid by {
        assert(after[a] == placed[f(a)]);
    }
    assert forall|i: int, j: int|
        0 <= i < after.len() && 0 <= j < after.len() && i != j implies (#[trigger] after[i]).uid != (
    #[trigger] after[j]).uid by {
        assert(after[i] == placed[f(i)]);
        assert(after[j] == placed[f(j)]);
    }
}

/// What a well-formed layout is: its bin is a bin, its items are sound,
/// and they cover no more than the bin's area.
pub proof fn lemma_layout_wf(layout: Layout)
    requires
        layout.wf(),
    ensures
        layout.bin.wf(),
        layout.cde.wf(),
        all_placed_wf(layout.placed_items@),
        uids_ok(layout.placed_items@, layout.next_uid),
        placements_sound(layout.bin, layout.placed_items@),
        layout.placed_area2 == placed_area(layout.placed_items@),
        layout.placed_area2 <= layout.bin.area2,
{
}

/// What a well-formed snapshot is: its bin is a bin, its items are sound,
/// and its usage is theirs.
pub proof fn lemma_snapshot_wf(snapshot: LayoutSnapshot)
    requires
        snapshot.wf(),
    ensures
        snapshot.bin.wf(),
        all_placed_wf(snapshot.placed_items@),
        uids_ok(snapshot.placed_items@, snapshot.next_uid),
        placements_sound(snapshot.bin, snapshot.placed_items@),
        snapshot.usage.used == placed_area(snapshot.placed_items@),
        snapshot.usage.total == snapshot.bin.area2,
        snapshot.usage.used <= snapshot.usage.total,
{
}

} // verus!
