//! The containers in which items are placed.

use vstd::prelude::*;
use crate::collision_detection::hazard::{Hazard, HazardEntity};
use crate::entities::quality_zone::InferiorQualityZone;
use crate::geometry::aa_rectangle::AARectangle;
use crate::geometry::simple_polygon::{PolygonView, ShapeError, SimplePolygon};
use crate::geometry::transformation::Transformation;

verus! {

/// A bin: an outline, holes in it, and zones of inferior quality.
#[derive(Debug)]
pub struct Bin {
    pub id: usize,
    pub outer: SimplePolygon,
    pub value: u64,
    /// The motion that was applied to the shapes as they were given.
    pub pretransform: Transformation,
    pub holes: Vec<SimplePolygon>,
    pub quality_zones: Vec<InferiorQualityZone>,
    /// Twice the area of the outline less twice the area of the holes.
    pub area2: u64,
}

/// Why a bin is not accepted.
#[derive(Clone, Copy, Debug, PartialEq, Eq, Structural)]
pub enum BinError {
    /// The holes leave no area.
    NoArea,
    /// The outline is no polygon.
    Shape(ShapeError),
}

/// Twice the area of the first `k` polygons together.
pub open spec fn total_double_area(shapes: Seq<SimplePolygon>, k: nat) -> int
    decreases k,
{
    if k == 0 {
        0
    } else {
        total_double_area(shapes, (k - 1) as nat) + shapes[k - 1]@.double_area()
    }
}

/// A hazard as the entity it stands for and the polygon it covers.
pub type HazardSketch = (HazardEntity, PolygonView);

/// The sketches of the hazards.
pub open spec fn sketches(hazards: Seq<Hazard>) -> Seq<HazardSketch> {
    Seq::new(hazards.len(), |k: int| (hazards[k].entity, hazards[k].shape@))
}

/// The sketches of the holes, in order.
pub open spec fn hole_sketches(holes: Seq<SimplePolygon>) -> Seq<HazardSketch> {
    Seq::new(holes.len(), |i: int| (HazardEntity::BinHole { id: i as usize }, holes[i]@))
}

/// The sketches of the first `k` shapes of one zone list.
pub open spec fn zone_sketches(zone: InferiorQualityZone, k: int) -> Seq<HazardSketch> {
    Seq::new(
        k as nat,
        |i: int|
            (
                HazardEntity::InferiorQualityZone { quality: zone.quality, id: i as usize },
                zone.zones@[i]@,
            ),
    )
}

/// The sketches of the first `k` zone lists, list by list.
pub open spec fn all_zone_sketches(zones: Seq<InferiorQualityZone>, k: nat) -> Seq<HazardSketch>
    decreases k,
{
    if k == 0 {
        Seq::<HazardSketch>::empty()
    } else {
        all_zone_sketches(zones, (k - 1) as nat) + zone_sketches(
            zones[k - 1],
            zones[k - 1].zones@.len() as int,
        )
    }
}

/// The sketches of a bin's hazards: the outside of the outline, then the
/// holes in order, then the zones list by list.
pub open spec fn bin_sketches(bin: Bin) -> Seq<HazardSketch> {
    seq![(HazardEntity::BinExterior, bin.outer@)] + hole_sketches(bin.holes@) + all_zone_sketches(
        bin.quality_zones@,
        bin.quality_zones@.len(),
    )
}

/// Every hazard is active, acceptable, and none stands for a placed item.
pub open spec fn all_static(hazards: Seq<Hazard>) -> bool {
    forall|k: int|
        0 <= k < hazards.len() ==> {
            &&& (#[trigger] hazards[k]).active
            &&& hazards[k].wf()
            &&& !hazards[k].entity.spec_dynamic()
        }
}

/// The hazards are those of the bin, each an active copy of the shape it
/// stands for.
pub open spec fn hazards_of_bin(bin: Bin, hazards: Seq<Hazard>) -> bool {
    sketches(hazards) == bin_sketches(bin) && all_static(hazards)
}

/// What a hazard with the given entity and shape adds to the sketches.
pub proof fn lemma_sketches_push(hazards: Seq<Hazard>, h: Hazard)
    ensures
        sketches(hazards.push(h)) == sketches(hazards).push((h.entity, h.shape@)),
{
    assert(sketches(hazards.push(h)) =~= sketches(hazards).push((h.entity, h.shape@)));
}

impl Bin {
    /// Every shape is a polygon, every zone names a quality, and the area
    /// is what the outline and the holes leave, more than nothing.
    pub open spec fn wf(&self) -> bool {
        &&& self.outer.wf()
        &&& self.pretransform.wf()
        &&& forall|i: int| 0 <= i < self.holes@.len() ==> (#[trigger] self.holes@[i]).wf()
        &&& forall|i: int|
            0 <= i < self.quality_zones@.len() ==> (#[trigger] self.quality_zones@[i]).wf()
        &&& self.area2 > 0
        &&& self.area2 == self.outer@.double_area() - total_double_area(
            self.holes@,
            self.holes@.len(),
        )
    }

    /// The bin with the given properties, unless the holes leave no area.
    pub fn new(
        id: usize,
        outer: SimplePolygon,
        value: u64,
        pretransform: Transformation,
        holes: Vec<SimplePolygon>,
        quality_zones: Vec<InferiorQualityZone>,
    ) -> (r: Result<Bin, BinError>)
        requires
            outer.wf(),
            pretransform.wf(),
            forall|i: int| 0 <= i < holes@.len() ==> (#[trigger] holes@[i]).wf(),
            forall|i: int| 0 <= i < quality_zones@.len() ==> (#[trigger] quality_zones@[i]).wf(),
        ensures
            match r {
                Ok(bin) => {
                    &&& bin.wf()
                    &&& bin.id == id
                    &&& bin.outer == outer
                    &&& bin.value == value
                    &&& bin.pretransform == pretransform
                    &&& bin.holes == holes
                    &&& bin.quality_zones == quality_zones
                },
                Err(e) => e == BinError::NoArea && outer@.double_area() <= total_double_area(
                    holes@,
                    holes@.len(),
                ),
            },
    {
        let outer_area: u64 = outer.double_area();
        let mut hole_area: u128 = 0;
        let mut i: usize = 0;
        while i < holes.len()
            invariant
                i <= holes.len(),
                forall|j: int| 0 <= j < holes@.len() ==> (#[trigger] holes@[j]).wf(),
                hole_area == total_double_area(holes@, i as nat),
                hole_area <= i * 0x1_0000_0000_0000_0000,
            decreases holes.len() - i,
        {
            assert(holes@[i as int].wf());
            hole_area = hole_area + holes[i].double_area() as u128;
            i += 1;
        }
        if hole_area >= outer_area as u128 {
            Err(BinError::NoArea)
        } else {
            let area2: u64 = (outer_area as u128 - hole_area) as u64;
            Ok(Bin { id, outer, value, pretransform, holes, quality_zones, area2 })
        }
    }

    /// The bin whose outline is the rectangle, with neither holes nor zones.
    pub fn from_strip(id: usize, rect: &AARectangle) -> (r: Result<Bin, BinError>)
        ensures
            match r {
                Ok(bin) => {
                    &&& bin.wf()
                    &&& bin.id == id
                    &&& bin.outer.points@ == crate::geometry::simple_polygon::rectangle_corners(
                        *rect,
                    )
                    &&& bin.value == 0
                    &&& bin.pretransform == Transformation::spec_empty()
                    &&& bin.holes@.len() == 0
                    &&& bin.quality_zones@.len() == 0
                },
                Err(e) => match e {
                    BinError::Shape(s) => crate::geometry::simple_polygon::polygon_defect(
                        crate::geometry::simple_polygon::rectangle_corners(*rect),
                    ) == Some(s),
                    BinError::NoArea => false,
                },
            },
    {
        match SimplePolygon::from_rectangle(rect) {
            Err(e) => Err(BinError::Shape(e)),
            Ok(outer) => {
                let holes: Vec<SimplePolygon> = Vec::new();
                let zones: Vec<InferiorQualityZone> = Vec::new();
                let r = Bin::new(id, outer, 0, Transformation::empty(), holes, zones);
                proof {
                    assert(total_double_area(holes@, 0) == 0);
                }
                r
            },
        }
    }

    pub fn id(&self) -> (r: usize)
        ensures
            r == self.id,
    {
        self.id
    }

    pub fn value(&self) -> (r: u64)
        ensures
            r == self.value,
    {
        self.value
    }

    /// Twice the area in which items can lie.
    pub fn double_area(&self) -> (r: u64)
        ensures
            r == self.area2,
    {
        self.area2
    }

    pub fn bbox(&self) -> (r: AARectangle)
        ensures
            r == self.outer.bbox,
    {
        self.outer.bbox
    }

    /// A copy of the bin.
    pub fn clone_bin(&self) -> (r: Bin)
        requires
            self.wf(),
        ensures
            r.wf(),
            r.id == self.id,
            r.value == self.value,
            r.pretransform == self.pretransform,
            r.area2 == self.area2,
            r.outer@ == self.outer@,
            r.holes@.len() == self.holes@.len(),
            forall|i: int| 0 <= i < self.holes@.len() ==> (#[trigger] r.holes@[i])@ == self.holes@[i]@,
            r.quality_zones@.len() == self.quality_zones@.len(),
            forall|z: int|
                0 <= z < self.quality_zones@.len() ==> {
                    &&& (#[trigger] r.quality_zones@[z]).quality == self.quality_zones@[z].quality
                    &&& r.quality_zones@[z].zones@.len() == self.quality_zones@[z].zones@.len()
                    &&& forall|i: int|
                        0 <= i < self.quality_zones@[z].zones@.len() ==> (
                        #[trigger] r.quality_zones@[z].zones@[i])@
                            == self.quality_zones@[z].zones@[i]@
                },
    {
        let holes: Vec<SimplePolygon> = clone_polygons(&self.holes);
        let mut quality_zones: Vec<InferiorQualityZone> = Vec::new();
        let mut z: usize = 0;
        while z < self.quality_zones.len()
            invariant
                z <= self.quality_zones.len(),
                self.wf(),
                quality_zones@.len() == z,
                forall|y: int|
                    0 <= y < z ==> {
                        &&& (#[trigger] quality_zones@[y]).quality == self.quality_zones@[y].quality
                        &&& quality_zones@[y].wf()
                        &&& quality_zones@[y].zones@.len() == self.quality_zones@[y].zones@.len()
                        &&& forall|i: int|
                            0 <= i < self.quality_zones@[y].zones@.len() ==> (
                            #[trigger] quality_zones@[y].zones@[i])@
                                == self.quality_zones@[y].zones@[i]@
                    },
            decreases self.quality_zones.len() - z,
        {
            let zone: &InferiorQualityZone = &self.quality_zones[z];
            assert(self.quality_zones@[z as int].wf());
            let shapes: Vec<SimplePolygon> = clone_polygons(&zone.zones);
            assert forall|i: int| 0 <= i < shapes@.len() implies (#[trigger] shapes@[i]).wf() by {
                assert(zone.zones@[i].wf());
            }
            quality_zones.push(InferiorQualityZone { quality: zone.quality, zones: shapes });
            z += 1;
        }
        proof {
            lemma_same_total_area(self.holes@, holes@, holes@.len());
            assert forall|i: int| 0 <= i < holes@.len() implies (#[trigger] holes@[i]).wf() by {
                assert(self.holes@[i].wf());
            }
        }
        Bin {
            id: self.id,
            outer: self.outer.clone_polygon(),
            value: self.value,
            pretransform: self.pretransform,
            holes,
            quality_zones,
            area2: self.area2,
        }
    }

    /// The hazards of the bin: the outside of its outline, its holes and its
    /// zones of inferior quality.
    pub fn generate_hazards(&self) -> (hazards: Vec<Hazard>)
        requires
            self.wf(),
        ensures
            hazards_of_bin(*self, hazards@),
    {
        let mut hazards: Vec<Hazard> = Vec::new();
        let first: Hazard = Hazard::new(HazardEntity::BinExterior, self.outer.clone_polygon());
        proof {
            lemma_sketches_push(hazards@, first);
            assert(sketches(hazards@) =~= Seq::<HazardSketch>::empty());
        }
        hazards.push(first);
        let ghost head = seq![(HazardEntity::BinExterior, self.outer@)];
        assert(sketches(hazards@) =~= head);
        let mut i: usize = 0;
        while i < self.holes.len()
            invariant
                i <= self.holes.len(),
                self.wf(),
                head == seq![(HazardEntity::BinExterior, self.outer@)],
                sketches(hazards@) == head + hole_sketches(self.holes@).subrange(0, i as int),
                all_static(hazards@),
            decreases self.holes.len() - i,
        {
            assert(self.holes@[i as int].wf());
            let h: Hazard = Hazard::new(
                HazardEntity::BinHole { id: i },
                self.holes[i].clone_polygon(),
            );
            proof {
                lemma_sketches_push(hazards@, h);
                assert((head + hole_sketches(self.holes@).subrange(0, i as int)).push(
                    (h.entity, h.shape@),
                ) =~= head + hole_sketches(self.holes@).subrange(0, i as int + 1));
            }
            hazards.push(h);
            i += 1;
        }
        let ghost fixed = head + hole_sketches(self.holes@);
        assert(hole_sketches(self.holes@).subrange(0, i as int) =~= hole_sketches(self.holes@));
        let mut z: usize = 0;
        assert(sketches(hazards@) =~= fixed + all_zone_sketches(self.quality_zones@, 0));
        while z < self.quality_zones.len()
            invariant
                z <= self.quality_zones.len(),
                self.wf(),
                fixed == seq![(HazardEntity::BinExterior, self.outer@)] + hole_sketches(self.holes@),
                sketches(hazards@) == fixed + all_zone_sketches(self.quality_zones@, z as nat),
                all_static(hazards@),
            decreases self.quality_zones.len() - z,
        {
            let zone: &InferiorQualityZone = &self.quality_zones[z];
            assert(self.quality_zones@[z as int].wf());
            let ghost before = fixed + all_zone_sketches(self.quality_zones@, z as nat);
            let mut j: usize = 0;
            assert(sketches(hazards@) =~= before + zone_sketches(*zone, 0));
            while j < zone.zones.len()
                invariant
                    j <= zone.zones.len(),
                    zone.wf(),
                    sketches(hazards@) == before + zone_sketches(*zone, j as int),
                    all_static(hazards@),
                decreases zone.zones.len() - j,
            {
                assert(zone.zones@[j as int].wf());
                let h: Hazard = Hazard::new(
                    HazardEntity::InferiorQualityZone { quality: zone.quality, id: j },
                    zone.zones[j].clone_polygon(),
                );
                proof {
                    lemma_sketches_push(hazards@, h);
                    assert((before + zone_sketches(*zone, j as int)).push((h.entity, h.shape@))
                        =~= before + zone_sketches(*zone, j as int + 1));
                }
                hazards.push(h);
                j += 1;
            }
            proof {
                assert(before + zone_sketches(*zone, zone.zones@.len() as int) =~= fixed
                    + all_zone_sketches(self.quality_zones@, (z + 1) as nat));
            }
            z += 1;
        }
        hazards
    }
}

/// Polygons with the same views have the same total area.
pub proof fn lemma_same_total_area(a: Seq<SimplePolygon>, b: Seq<SimplePolygon>, k: nat)
    requires
        k <= a.len(),
        a.len() == b.len(),
        forall|i: int| 0 <= i < a.len() ==> (#[trigger] a[i])@ == b[i]@,
    ensures
        total_double_area(a, k) == total_double_area(b, k),
    decreases k,
{
    if k > 0 {
        lemma_same_total_area(a, b, (k - 1) as nat);
        assert(a[k - 1]@ == b[k - 1]@);
    }
}

/// Copies of the polygons.
pub fn clone_polygons(shapes: &Vec<SimplePolygon>) -> (r: Vec<SimplePolygon>)
    ensures
        r@.len() == shapes@.len(),
        forall|i: int| 0 <= i < shapes@.len() ==> (#[trigger] r@[i])@ == shapes@[i]@,
{
    let mut r: Vec<SimplePolygon> = Vec::new();
    let mut i: usize = 0;
    while i < shapes.len()
        invariant
            i <= shapes.len(),
            r@.len() == i,
            forall|j: int| 0 <= j < i ==> (#[trigger] r@[j])@ == shapes@[j]@,
        decreases shapes.len() - i,
    {
        r.push(shapes[i].clone_polygon());
        i += 1;
    }
    r
}

} // verus!
