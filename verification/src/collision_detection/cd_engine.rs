//! The collision detection engine of one layout: the hazards of the bin,
//! the hazards of the items placed, and the proximity grid over them.

use vstd::prelude::*;
use crate::collision_detection::hazard::{Hazard, HazardEntity};
use crate::collision_detection::hazard_filters::hazard_filter::HazardFilter;
use crate::collision_detection::hpg::hazard_proximity_grid::HazardProximityGrid;
use crate::collision_detection::hpg::hpg_cell::{
    first_rejection,
    haz_prox,
    nearest_of,
    HPGCell,
    HazardRejected,
};
use crate::collision_detection::quadtree::qt_node::{
    any_edge_hit,
    edge_hit,
    lemma_finds_exact,
    QTNode,
};
use crate::entities::bin::all_static;
use crate::entities::quality_zone::N_QUALITIES;
use crate::geometry::edge::Edge;
use crate::geometry::outline::{chain_ok, compute_contains, edge_at, edge_of};
use crate::geometry::overlap::edges_meet;
use crate::geometry::aa_rectangle::AARectangle;
use crate::geometry::circle::Circle;
use crate::geometry::fail_fast::sp_surrogate::SPSurrogate;
use crate::geometry::geo_enums::{GeoPosition, Rounding};
use crate::geometry::outline::{chain_contains, chain_distance};
use crate::geometry::overlap::{shape_leaves, shapes_overlap};
use crate::geometry::point::Point;
use crate::geometry::simple_polygon::{PolygonView, SimplePolygon};
use crate::util::config::CDEConfig;

verus! {

/// A stage of the test of a candidate placement.
#[derive(Debug, Clone, Copy, PartialEq, Eq, Structural)]
pub enum PlacementStage {
    /// The proximity grid: could the cell accommodate the shape's pole of
    /// inaccessibility?
    HpgFilter,
    /// The surrogate: does a pole of the shape reach a hazard?
    SurrogateCheck,
    /// The shape itself: does it meet a hazard?
    ExactCheck,
}

/// Whether the polygon of outline `shape` meets the forbidden side of a
/// hazard of the given entity and outline.
pub open spec fn sketch_collides(shape: Seq<Point>, entity: HazardEntity, outline: Seq<Point>) -> bool {
    match entity.spec_position() {
        GeoPosition::Interior => shapes_overlap(shape, outline),
        GeoPosition::Exterior => shape_leaves(shape, outline),
    }
}

/// Whether the polygon of outline `shape` meets the forbidden side of the
/// hazard.
pub open spec fn collides_with_hazard(shape: Seq<Point>, h: Hazard) -> bool {
    sketch_collides(shape, h.entity, h.shape.points@)
}

/// Whether one of the first `k` hazards is active, matters for the filter,
/// and is met by the polygon of outline `shape`.
pub open spec fn any_hit<F: HazardFilter>(
    shape: Seq<Point>,
    hazards: Seq<Hazard>,
    filter: F,
    k: int,
) -> bool {
    exists|i: int|
        0 <= i < k && (#[trigger] hazards[i]).active && filter.spec_is_relevant(hazards[i].entity)
            && collides_with_hazard(shape, hazards[i])
}

/// Whether the disk reaches the forbidden side of the hazard: its centre
/// lies there, or lies nearer to the hazard's outline than its radius.
pub open spec fn disk_hits(disk: Circle, h: Hazard) -> bool {
    let inside = chain_contains(h.shape.points@, disk.center);
    let near = chain_distance(h.shape.points@, disk.center, Rounding::Down) < disk.radius;
    match h.entity.spec_position() {
        GeoPosition::Interior => inside || near,
        GeoPosition::Exterior => !inside || near,
    }
}

/// Whether one of the first `n` disks reaches one of the first `k` hazards
/// that are active and matter for the filter.
pub open spec fn any_disk_hit<F: HazardFilter>(
    disks: Seq<Circle>,
    n: int,
    hazards: Seq<Hazard>,
    filter: F,
    k: int,
) -> bool {
    exists|d: int, i: int|
        0 <= d < n && 0 <= i < k && (#[trigger] hazards[i]).active && filter.spec_is_relevant(
            hazards[i].entity,
        ) && disk_hits(#[trigger] disks[d], hazards[i])
}

/// Every hazard is the active hazard of a placed item, with its surrogate.
pub open spec fn all_dynamic(hazards: Seq<Hazard>) -> bool {
    forall|k: int|
        0 <= k < hazards.len() ==> {
            &&& (#[trigger] hazards[k]).active
            &&& hazards[k].wf()
            &&& hazards[k].entity.spec_dynamic()
        }
}

/// The cell's nearest universal hazard is the nearest of the bin's and of
/// the given hazards.
pub open spec fn cell_reflects(cell: HPGCell, hazards: Seq<Hazard>) -> bool {
    nearest_of(HPGCell { uni_prox: cell.static_uni_prox, ..cell }, hazards, cell)
}

/// The collision detection engine of a layout.
#[derive(Debug)]
pub struct CDEngine {
    pub bbox: AARectangle,
    /// The hazards of the bin.
    pub static_hazards: Vec<Hazard>,
    /// The hazards of the items placed, in the order of their placing.
    pub dynamic_hazards: Vec<Hazard>,
    pub hpg: HazardProximityGrid,
    /// The quadtree over the hazards of the bin, then those of the items
    /// placed.
    pub quadtree: QTNode,
    pub config: CDEConfig,
}

/// Hazards of placed items can all be registered.
pub proof fn lemma_dynamic_not_rejected(hazards: Seq<Hazard>, k: nat)
    requires
        all_dynamic(hazards),
        k <= hazards.len(),
    ensures
        first_rejection(hazards, k).is_none(),
    decreases k,
{
    if k > 0 {
        lemma_dynamic_not_rejected(hazards, (k - 1) as nat);
        assert(hazards[k - 1].wf());
    }
}

/// A cell that reflects some hazards reflects them with one more, once that
/// one is registered in it.
pub proof fn lemma_reflects_after_push(c0: HPGCell, before: Seq<Hazard>, hazard: Hazard)
    requires
        c0.wf(),
        cell_reflects(c0, before),
        hazard.wf(),
        hazard.active,
        hazard.shape.surrogate.is_some(),
    ensures
        cell_reflects(
            c0.spec_register(haz_prox(hazard, c0.centroid), hazard.entity).0,
            before.push(hazard),
        ),
{
    let after = before.push(hazard);
    let hp = haz_prox(hazard, c0.centroid);
    let c1 = c0.spec_register(hp, hazard.entity).0;
    lemma_haz_prox_bounded(hazard, c0.centroid);
    assert forall|i: int| 0 <= i < after.len() && (#[trigger] after[i]).active implies c1.uni_prox.0
        <= haz_prox(after[i], c0.centroid) by {
        if i < before.len() {
            assert(after[i] == before[i]);
        }
    }
    if c1.uni_prox != c0.uni_prox {
        assert(after[before.len() as int] == hazard);
    } else if c0.uni_prox != c0.static_uni_prox {
        let i = choose|i: int|
            0 <= i < before.len() && (#[trigger] before[i]).active && c0.uni_prox.0 == haz_prox(
                before[i],
                c0.centroid,
            ) && c0.uni_prox.1 == before[i].entity;
        assert(after[i] == before[i]);
    }
}

/// A cell that reflects some hazards reflects them without one that is not
/// its nearest.
pub proof fn lemma_reflects_after_removal(c0: HPGCell, before: Seq<Hazard>, index: int)
    requires
        cell_reflects(c0, before),
        0 <= index < before.len(),
        c0.uni_prox.1 != before[index].entity,
    ensures
        cell_reflects(c0, before.remove(index)),
{
    let after = before.remove(index);
    assert forall|i: int| 0 <= i < after.len() && (#[trigger] after[i]).active implies c0.uni_prox.0
        <= haz_prox(after[i], c0.centroid) by {
        if i < index {
            assert(after[i] == before[i]);
        } else {
            assert(after[i] == before[i + 1]);
        }
    }
    if c0.uni_prox != c0.static_uni_prox {
        let i = choose|i: int|
            0 <= i < before.len() && (#[trigger] before[i]).active && c0.uni_prox.0 == haz_prox(
                before[i],
                c0.centroid,
            ) && c0.uni_prox.1 == before[i].entity;
        assert(i != index);
        if i < index {
            assert(after[i] == before[i]);
        } else {
            assert(after[i - 1] == before[i]);
        }
    }
}

impl CDEngine {
    /// The hazards are of the right kind and every cell of the grid reflects
    /// them.
    pub open spec fn wf(&self) -> bool {
        &&& self.bbox.wf()
        &&& self.config.wf()
        &&& self.hpg.wf()
        &&& self.hpg.bbox == self.bbox
        &&& all_static(self.static_hazards@)
        &&& all_dynamic(self.dynamic_hazards@)
        &&& forall|k: int|
            0 <= k < self.hpg.cells@.len() ==> cell_reflects(
                #[trigger] self.hpg.cells@[k],
                self.dynamic_hazards@,
            )
        &&& self.quadtree.structure_ok()
        &&& self.quadtree.bbox == self.bbox
        &&& self.quadtree.describes(self.all_hazards())
    }

    /// The hazards of the bin, then those of the items placed.
    pub open spec fn all_hazards(&self) -> Seq<Hazard> {
        self.static_hazards@ + self.dynamic_hazards@
    }

    /// The engine of a bin with the given box and hazards, with no item
    /// placed.
    pub fn new(bbox: AARectangle, static_hazards: Vec<Hazard>, config: CDEConfig) -> (cde: CDEngine)
        requires
            bbox.wf(),
            config.wf(),
            all_static(static_hazards@),
        ensures
            cde.wf(),
            cde.bbox == bbox,
            cde.config == config,
            cde.static_hazards == static_hazards,
            cde.dynamic_hazards@.len() == 0,
    {
        let hpg: HazardProximityGrid = HazardProximityGrid::new(
            bbox,
            static_hazards.as_slice(),
            config.hpg_n_cells,
        );
        let mut quadtree: QTNode = QTNode::new(bbox, config.quadtree_depth);
        let mut i: usize = 0;
        assert(static_hazards@.subrange(0, 0) =~= Seq::<Hazard>::empty());
        while i < static_hazards.len()
            invariant
                i <= static_hazards.len(),
                all_static(static_hazards@),
                quadtree.structure_ok(),
                quadtree.bbox == bbox,
                quadtree.describes(static_hazards@.subrange(0, i as int)),
            decreases static_hazards.len() - i,
        {
            assert(static_hazards@[i as int].wf());
            quadtree.register_hazard(&static_hazards[i]);
            assert(static_hazards@.subrange(0, i as int).push(static_hazards@[i as int])
                =~= static_hazards@.subrange(0, i as int + 1));
            i += 1;
        }
        let dynamic_hazards: Vec<Hazard> = Vec::new();
        assert(static_hazards@.subrange(0, i as int) =~= static_hazards@ + dynamic_hazards@);
        CDEngine { bbox, static_hazards, dynamic_hazards, hpg, quadtree, config }
    }

    /// Registers the hazard of an item that has been placed.
    pub fn register_hazard(&mut self, hazard: Hazard)
        requires
            old(self).wf(),
            hazard.wf(),
            hazard.active,
            hazard.entity.spec_dynamic(),
        ensures
            final(self).wf(),
            final(self).bbox == old(self).bbox,
            final(self).config == old(self).config,
            final(self).static_hazards == old(self).static_hazards,
            final(self).dynamic_hazards@ == old(self).dynamic_hazards@.push(hazard),
    {
        let ghost before = self.dynamic_hazards@;
        let ghost cells0 = self.hpg.cells@;
        let ghost all0 = self.all_hazards();
        let res: Result<(), HazardRejected> = self.hpg.register_hazard(&hazard);
        assert(res.is_ok());
        self.quadtree.register_hazard(&hazard);
        assert(all0.push(hazard) =~= self.static_hazards@ + before.push(hazard));
        proof {
            let after = before.push(hazard);
            assert forall|k: int| 0 <= k < self.hpg.cells@.len() implies cell_reflects(
                #[trigger] self.hpg.cells@[k],
                after,
            ) by {
                let c0 = cells0[k];
                assert(c0.wf());
                assert(cell_reflects(c0, before));
                lemma_reflects_after_push(c0, before, hazard);
            }
        }
        self.dynamic_hazards.push(hazard);
    }

    /// Takes out the hazard at position `index` among those of the items
    /// placed.
    pub fn deregister_hazard(&mut self, index: usize) -> (removed: Hazard)
        requires
            old(self).wf(),
            index < old(self).dynamic_hazards@.len(),
            forall|j: int|
                0 <= j < old(self).dynamic_hazards@.len() && j != index ==> (
                #[trigger] old(self).dynamic_hazards@[j]).entity
                    != old(self).dynamic_hazards@[index as int].entity,
        ensures
            final(self).wf(),
            final(self).bbox == old(self).bbox,
            final(self).config == old(self).config,
            final(self).static_hazards == old(self).static_hazards,
            final(self).dynamic_hazards@ == old(self).dynamic_hazards@.remove(index as int),
            removed == old(self).dynamic_hazards@[index as int],
    {
        let ghost before = self.dynamic_hazards@;
        let ghost cells0 = self.hpg.cells@;
        forget_in_tree(
            &mut self.quadtree,
            self.static_hazards.len(),
            index,
            Ghost(self.static_hazards@),
            Ghost(self.dynamic_hazards@),
        );
        let removed: Hazard = self.dynamic_hazards.remove(index);
        let ghost after = self.dynamic_hazards@;
        let mut gone: Vec<HazardEntity> = Vec::new();
        gone.push(removed.entity);
        proof {
            assert forall|k: int| 0 <= k < after.len() implies {
                &&& (#[trigger] after[k]).active
                &&& after[k].wf()
                &&& after[k].entity.spec_dynamic()
            } by {
                if k < index {
                    assert(after[k] == before[k]);
                } else {
                    assert(after[k] == before[k + 1]);
                }
            }
            assert forall|i: int| 0 <= i < after.len() implies (#[trigger] after[i]).shape.wf() by {
                assert(after[i].wf());
            }
            lemma_dynamic_not_rejected(after, after.len());
        }
        let res: Result<(), HazardRejected> = self.hpg.deregister_hazards(
            &gone,
            self.dynamic_hazards.as_slice(),
        );
        assert(res.is_ok());
        proof {
            assert(gone@ =~= seq![removed.entity]);
            assert(gone@[0] == removed.entity);
            assert forall|k: int| 0 <= k < self.hpg.cells@.len() implies cell_reflects(
                #[trigger] self.hpg.cells@[k],
                after,
            ) by {
                let c0 = cells0[k];
                assert(cell_reflects(c0, before));
                if !gone@.contains(c0.uni_prox.1) {
                    lemma_reflects_after_removal(c0, before, index as int);
                }
            }
        }
        removed
    }

    /// Whether exactly one of the hazards of the items placed stands for
    /// the entity.
    pub open spec fn holds_once(&self, entity: HazardEntity) -> bool {
        &&& exists|j: int|
            0 <= j < self.dynamic_hazards@.len() && (#[trigger] self.dynamic_hazards@[j]).entity
                == entity
        &&& forall|i: int, j: int|
            0 <= i < self.dynamic_hazards@.len() && 0 <= j < self.dynamic_hazards@.len() && (
            #[trigger] self.dynamic_hazards@[i]).entity == entity && (
            #[trigger] self.dynamic_hazards@[j]).entity == entity ==> i == j
    }

    /// The position of the hazard that stands for the entity among those of
    /// the items placed.
    pub open spec fn spec_position_of(&self, entity: HazardEntity) -> int {
        choose|j: int|
            0 <= j < self.dynamic_hazards@.len() && (#[trigger] self.dynamic_hazards@[j]).entity
                == entity
    }

    /// Takes out the hazard that stands for the entity, which is the hazard
    /// of exactly one of the items placed.
    pub fn deregister(&mut self, entity: &HazardEntity) -> (removed: Hazard)
        requires
            old(self).wf(),
            old(self).holds_once(*entity),
        ensures
            final(self).wf(),
            final(self).bbox == old(self).bbox,
            final(self).config == old(self).config,
            final(self).static_hazards == old(self).static_hazards,
            final(self).dynamic_hazards@ == old(self).dynamic_hazards@.remove(
                old(self).spec_position_of(*entity),
            ),
            removed == old(self).dynamic_hazards@[old(self).spec_position_of(*entity)],
            removed.entity == *entity,
    {
        let ghost at = self.spec_position_of(*entity);
        let mut index: usize = 0;
        while index < self.dynamic_hazards.len() && self.dynamic_hazards[index].entity != *entity
            invariant
                index <= at < self.dynamic_hazards@.len(),
                self.dynamic_hazards@[at].entity == *entity,
                forall|j: int| 0 <= j < index ==> (#[trigger] self.dynamic_hazards@[j]).entity != *entity,
            decreases self.dynamic_hazards@.len() - index,
        {
            index += 1;
        }
        assert(index == at);
        self.deregister_hazard(index)
    }

    /// Whether the polygon of `shape` meets a hazard that is active and
    /// matters for the filter. This check is exact.
    pub open spec fn spec_poly_collides<F: HazardFilter>(&self, shape: Seq<Point>, filter: F) -> bool {
        any_hit(shape, self.static_hazards@, filter, self.static_hazards@.len() as int) || any_hit(
            shape,
            self.dynamic_hazards@,
            filter,
            self.dynamic_hazards@.len() as int,
        )
    }

    pub fn poly_collides<F: HazardFilter>(&self, shape: &SimplePolygon, filter: &F) -> (r: bool)
        requires
            self.wf(),
            shape.wf(),
        ensures
            r == self.spec_poly_collides(shape.points@, *filter),
    {
        proof {
            lemma_hits_in_parts(shape.points@, self.static_hazards@, *filter);
            lemma_hits_in_parts(shape.points@, self.dynamic_hazards@, *filter);
        }
        if self.edges_collide(shape, filter) {
            true
        } else if hazards_hold(shape, &self.static_hazards, filter) {
            true
        } else {
            hazards_hold(shape, &self.dynamic_hazards, filter)
        }
    }

    /// Tells whether an edge of the shape meets an edge of a hazard that is
    /// active and matters for the filter. The quadtree is asked for each edge
    /// within its box; the others are tested against every hazard.
    pub fn edges_collide<F: HazardFilter>(&self, shape: &SimplePolygon, filter: &F) -> (r: bool)
        requires
            self.wf(),
            shape.wf(),
        ensures
            r == (edges_part(shape.points@, self.static_hazards@, *filter) || edges_part(
                shape.points@,
                self.dynamic_hazards@,
                *filter,
            )),
    {
        let n: usize = shape.points.len();
        let mut a: usize = 0;
        while a < n
            invariant
                a <= n,
                n == shape.points@.len(),
                self.wf(),
                shape.wf(),
                forall|b: int|
                    0 <= b < a ==> !any_edge_hit(
                        self.static_hazards@,
                        #[trigger] edge_at(shape.points@, b),
                        *filter,
                    ) && !any_edge_hit(self.dynamic_hazards@, edge_at(shape.points@, b), *filter),
            decreases n - a,
        {
            let e: Edge = edge_of(&shape.points, a);
            assert(edge_at(shape.points@, a as int).wf());
            let hit: bool = if self.bbox.contains(&e.bbox()) {
                proof {
                    lemma_finds_exact(self.quadtree, self.all_hazards(), e, *filter);
                    lemma_edge_hit_in_parts(self.static_hazards@, self.dynamic_hazards@, e, *filter);
                }
                self.quadtree.collides(&e, filter)
            } else if edge_hits(&e, &self.static_hazards, filter) {
                true
            } else {
                edge_hits(&e, &self.dynamic_hazards, filter)
            };
            if hit {
                proof {
                    if any_edge_hit(self.static_hazards@, e, *filter) {
                        let (i, j) = choose|i: int, j: int| #[trigger]
                            edge_hit(self.static_hazards@, e, *filter, i, j);
                        assert(edge_hit(
                            self.static_hazards@,
                            edge_at(shape.points@, a as int),
                            *filter,
                            i,
                            j,
                        ));
                    } else {
                        let (i, j) = choose|i: int, j: int| #[trigger]
                            edge_hit(self.dynamic_hazards@, e, *filter, i, j);
                        assert(edge_hit(
                            self.dynamic_hazards@,
                            edge_at(shape.points@, a as int),
                            *filter,
                            i,
                            j,
                        ));
                    }
                }
                return true;
            }
            a += 1;
        }
        false
    }

    /// Whether a pole of the surrogate reaches a hazard that is active and
    /// matters for the filter.
    pub open spec fn spec_surrogate_collides<F: HazardFilter>(
        &self,
        poles: Seq<Circle>,
        filter: F,
    ) -> bool {
        any_disk_hit(
            poles,
            poles.len() as int,
            self.static_hazards@,
            filter,
            self.static_hazards@.len() as int,
        ) || any_disk_hit(
            poles,
            poles.len() as int,
            self.dynamic_hazards@,
            filter,
            self.dynamic_hazards@.len() as int,
        )
    }

    pub fn surrogate_collides<F: HazardFilter>(&self, surrogate: &SPSurrogate, filter: &F) -> (r:
        bool)
        requires
            self.wf(),
            forall|i: int| 0 <= i < surrogate.poles@.len() ==> (#[trigger] surrogate.poles@[i]).wf(),
        ensures
            r == self.spec_surrogate_collides(surrogate.poles@, *filter),
    {
        if disks_hit(&surrogate.poles, &self.static_hazards, filter) {
            true
        } else {
            disks_hit(&surrogate.poles, &self.dynamic_hazards, filter)
        }
    }

    /// Whether the proximity grid rules out a shape of the given quality
    /// with the given pole of inaccessibility: the cell that holds the
    /// pole's centre could not accommodate the pole.
    pub open spec fn spec_grid_rules_out(&self, poi: Circle, base_quality: Option<usize>) -> bool {
        self.bbox.spec_collides_with(poi.center) && !self.hpg.cells@[self.hpg.spec_cell_index(
            poi.center,
        )].spec_could_accommodate(poi.radius as int, base_quality)
    }

    /// The first stage that rejects the shape, if one does: the proximity
    /// grid, then the shape's surrogate, then the shape itself.
    pub open spec fn spec_rejecting_stage<F: HazardFilter>(
        &self,
        shape: PolygonView,
        base_quality: Option<usize>,
        filter: F,
    ) -> Option<PlacementStage> {
        if self.spec_grid_rules_out(shape.poi, base_quality) {
            Some(PlacementStage::HpgFilter)
        } else if self.spec_surrogate_collides(shape.surrogate.unwrap().poles, filter) {
            Some(PlacementStage::SurrogateCheck)
        } else if self.spec_poly_collides(shape.points, filter) {
            Some(PlacementStage::ExactCheck)
        } else {
            None
        }
    }

    /// Tests a candidate shape in three stages, the cheapest first, and
    /// tells the first that rejects it, if one does. Only the last stage is
    /// decisive: the first two never see more than disks.
    pub fn rejecting_stage<F: HazardFilter>(
        &self,
        shape: &SimplePolygon,
        base_quality: Option<usize>,
        filter: &F,
    ) -> (r: Option<PlacementStage>)
        requires
            self.wf(),
            shape.wf(),
            shape.surrogate.is_some(),
            match base_quality {
                Some(q) => q <= N_QUALITIES,
                None => true,
            },
        ensures
            r == self.spec_rejecting_stage(shape@, base_quality, *filter),
    {
        let ruled_out: bool = match self.hpg_cell_for(&shape.poi.center) {
            Some(cell) => !cell.could_accommodate(shape.poi.radius, base_quality),
            None => false,
        };
        if ruled_out {
            return Some(PlacementStage::HpgFilter);
        }
        match &shape.surrogate {
            Some(surrogate) => {
                proof {
                    let s = shape@.surrogate.unwrap();
                    assert(s.wf_for(shape.points@));
                    assert forall|i: int| 0 <= i < surrogate.poles@.len() implies (
                    #[trigger] surrogate.poles@[i]).wf() by {
                        assert(s.poles[i].wf());
                    }
                }
                if self.surrogate_collides(surrogate, filter) {
                    return Some(PlacementStage::SurrogateCheck);
                }
            },
            None => {},
        }
        if self.poly_collides(shape, filter) {
            Some(PlacementStage::ExactCheck)
        } else {
            None
        }
    }

    /// The cell of the proximity grid that holds `p`, if `p` lies in the
    /// engine's box.
    pub fn hpg_cell_for(&self, p: &Point) -> (r: Option<&HPGCell>)
        requires
            self.wf(),
        ensures
            r.is_some() == self.bbox.spec_collides_with(*p),
            match r {
                Some(cell) => {
                    &&& 0 <= self.hpg.spec_cell_index(*p) < self.hpg.cells@.len()
                    &&& *cell == self.hpg.cells@[self.hpg.spec_cell_index(*p)]
                    &&& cell.wf()
                    &&& cell.bbox.spec_collides_with(*p)
                    &&& cell_reflects(*cell, self.dynamic_hazards@)
                },
                None => true,
            },
    {
        self.hpg.cell_for(p)
    }
}

/// The proximity of a hazard with a surrogate fits a machine integer.
pub proof fn lemma_haz_prox_bounded(h: Hazard, c: Point)
    requires
        h.shape.wf(),
        h.shape.surrogate.is_some(),
        c.in_range(),
    ensures
        0 <= haz_prox(h, c) <= 0x1_0000_0000,
{
    let s = h.shape@.surrogate.unwrap();
    assert(s.wf_for(h.shape.points@));
    crate::collision_detection::hpg::hpg_cell::lemma_bounding_below_haz_prox(h, c);
    assert(s.poles[0].wf());
    crate::collision_detection::hpg::hpg_cell::lemma_pole_proximity_bounded(s.poles[0], c);
    crate::collision_detection::hpg::hpg_cell::lemma_poles_proximity_lower(
        s.poles,
        c,
        s.poles.len(),
        0,
    );
}

/// Makes the tree forget the hazard at position `index` among those of the
/// items placed, which follow the `n_static` hazards of the bin.
fn forget_in_tree(
    tree: &mut QTNode,
    n_static: usize,
    index: usize,
    Ghost(statics): Ghost<Seq<Hazard>>,
    Ghost(dynamics): Ghost<Seq<Hazard>>,
)
    requires
        old(tree).structure_ok(),
        old(tree).describes(statics + dynamics),
        n_static == statics.len(),
        index < dynamics.len(),
    ensures
        final(tree).structure_ok(),
        final(tree).bbox == old(tree).bbox,
        final(tree).describes(statics + dynamics.remove(index as int)),
{
    let ghost all = statics + dynamics;
    let total: usize = tree.hazards.len();
    assert(total == all.len());
    assert(all.len() == statics.len() + dynamics.len());
    tree.deregister_hazard(n_static + index);
    assert(all.remove(n_static + index) =~= statics + dynamics.remove(index as int));
}

/// Whether an edge of the outline `shape` meets an edge of a hazard that is
/// active and matters for the filter.
pub open spec fn edges_part<F: HazardFilter>(shape: Seq<Point>, hazards: Seq<Hazard>, filter: F) -> bool {
    exists|a: int, i: int, j: int|
        0 <= a < shape.len() && #[trigger] edge_hit(hazards, edge_at(shape, a), filter, i, j)
}

/// Whether the outline `shape` and the hazard hold one another on the
/// hazard's forbidden side: with the inside forbidden, the first vertex of one
/// lies inside the other; with the outside forbidden, the first vertex of the
/// shape does not lie inside the hazard.
pub open spec fn holds(shape: Seq<Point>, h: Hazard) -> bool {
    match h.entity.spec_position() {
        GeoPosition::Interior => chain_contains(h.shape.points@, shape[0]) || chain_contains(
            shape,
            h.shape.points@[0],
        ),
        GeoPosition::Exterior => !chain_contains(h.shape.points@, shape[0]),
    }
}

/// Whether the outline `shape` and one of the first `k` hazards that are
/// active and matter for the filter hold one another.
pub open spec fn holds_part<F: HazardFilter>(
    shape: Seq<Point>,
    hazards: Seq<Hazard>,
    filter: F,
    k: int,
) -> bool {
    exists|i: int|
        0 <= i < k && (#[trigger] hazards[i]).active && filter.spec_is_relevant(hazards[i].entity)
            && holds(shape, hazards[i])
}

/// A polygon meets a hazard where an edge of one meets an edge of the other
/// or the two hold one another.
pub proof fn lemma_hits_in_parts<F: HazardFilter>(shape: Seq<Point>, hazards: Seq<Hazard>, filter: F)
    ensures
        any_hit(shape, hazards, filter, hazards.len() as int) == (edges_part(
            shape,
            hazards,
            filter,
        ) || holds_part(shape, hazards, filter, hazards.len() as int)),
{
    if any_hit(shape, hazards, filter, hazards.len() as int) {
        let i = choose|i: int|
            0 <= i < hazards.len() && (#[trigger] hazards[i]).active && filter.spec_is_relevant(
                hazards[i].entity,
            ) && collides_with_hazard(shape, hazards[i]);
        if edges_meet(shape, hazards[i].shape.points@) {
            let (a, j) = choose|a: int, j: int|
                0 <= a < shape.len() && 0 <= j < hazards[i].shape.points@.len() && (
                #[trigger] edge_at(shape, a)).spec_collides_with(
                    #[trigger] edge_at(hazards[i].shape.points@, j),
                );
            assert(edge_hit(hazards, edge_at(shape, a), filter, i, j));
        } else {
            assert(holds(shape, hazards[i]));
        }
    }
    if edges_part(shape, hazards, filter) {
        let (a, i, j) = choose|a: int, i: int, j: int|
            0 <= a < shape.len() && #[trigger] edge_hit(hazards, edge_at(shape, a), filter, i, j);
        assert(edge_at(shape, a).spec_collides_with(edge_at(hazards[i].shape.points@, j)));
        assert(edges_meet(shape, hazards[i].shape.points@));
        assert(collides_with_hazard(shape, hazards[i]));
    }
    if holds_part(shape, hazards, filter, hazards.len() as int) {
        let i = choose|i: int|
            0 <= i < hazards.len() && (#[trigger] hazards[i]).active && filter.spec_is_relevant(
                hazards[i].entity,
            ) && holds(shape, hazards[i]);
        assert(collides_with_hazard(shape, hazards[i]));
    }
}

/// An edge meets an edge of the hazards of two lists together where it meets
/// one of either list.
pub proof fn lemma_edge_hit_in_parts<F: HazardFilter>(
    first: Seq<Hazard>,
    second: Seq<Hazard>,
    e: Edge,
    filter: F,
)
    ensures
        any_edge_hit(first + second, e, filter) == (any_edge_hit(first, e, filter) || any_edge_hit(
            second,
            e,
            filter,
        )),
{
    let all = first + second;
    if any_edge_hit(all, e, filter) {
        let (i, j) = choose|i: int, j: int| #[trigger] edge_hit(all, e, filter, i, j);
        if i < first.len() {
            assert(all[i] == first[i]);
            assert(edge_hit(first, e, filter, i, j));
        } else {
            assert(all[i] == second[i - first.len()]);
            assert(edge_hit(second, e, filter, i - first.len(), j));
        }
    }
    if any_edge_hit(first, e, filter) {
        let (i, j) = choose|i: int, j: int| #[trigger] edge_hit(first, e, filter, i, j);
        assert(all[i] == first[i]);
        assert(edge_hit(all, e, filter, i, j));
    }
    if any_edge_hit(second, e, filter) {
        let (i, j) = choose|i: int, j: int| #[trigger] edge_hit(second, e, filter, i, j);
        assert(all[i + first.len()] == second[i]);
        assert(edge_hit(all, e, filter, i + first.len(), j));
    }
}

/// Tells whether the edge meets an edge of one of the hazards that are
/// active and matter for the filter.
pub fn edge_hits<F: HazardFilter>(e: &Edge, hazards: &Vec<Hazard>, filter: &F) -> (r: bool)
    requires
        e.wf(),
        forall|k: int| 0 <= k < hazards@.len() ==> (#[trigger] hazards@[k]).shape.wf(),
    ensures
        r == any_edge_hit(hazards@, *e, *filter),
{
    let mut i: usize = 0;
    while i < hazards.len()
        invariant
            i <= hazards.len(),
            e.wf(),
            forall|k: int| 0 <= k < hazards@.len() ==> (#[trigger] hazards@[k]).shape.wf(),
            forall|a: int, j: int| 0 <= a < i ==> !#[trigger] edge_hit(hazards@, *e, *filter, a, j),
        decreases hazards.len() - i,
    {
        let h: &Hazard = &hazards[i];
        assert(hazards@[i as int].shape.wf());
        if h.active && filter.is_relevant(&h.entity) {
            let mut j: usize = 0;
            while j < h.shape.points.len()
                invariant
                    j <= h.shape.points.len(),
                    i < hazards.len(),
                    *h == hazards@[i as int],
                    h.active,
                    filter.spec_is_relevant(h.entity),
                    chain_ok(h.shape.points@),
                    e.wf(),
                    forall|a: int, m: int|
                        0 <= a < i ==> !#[trigger] edge_hit(hazards@, *e, *filter, a, m),
                    forall|m: int|
                        0 <= m < j ==> !#[trigger] edge_hit(hazards@, *e, *filter, i as int, m),
                decreases h.shape.points.len() - j,
            {
                let f: Edge = edge_of(&h.shape.points, j);
                assert(edge_at(h.shape.points@, j as int).wf());
                if e.collides_with(&f) {
                    assert(edge_hit(hazards@, *e, *filter, i as int, j as int));
                    return true;
                }
                j += 1;
            }
        }
        i += 1;
    }
    false
}

/// Tells whether the polygon and one of the hazards that are active and
/// matter for the filter hold one another.
pub fn hazards_hold<F: HazardFilter>(shape: &SimplePolygon, hazards: &Vec<Hazard>, filter: &F) -> (r:
    bool)
    requires
        shape.wf(),
        forall|k: int| 0 <= k < hazards@.len() ==> (#[trigger] hazards@[k]).shape.wf(),
    ensures
        r == holds_part(shape.points@, hazards@, *filter, hazards@.len() as int),
{
    let mut i: usize = 0;
    assert(shape.points@[0].is_vertex());
    while i < hazards.len()
        invariant
            i <= hazards.len(),
            shape.wf(),
            forall|k: int| 0 <= k < hazards@.len() ==> (#[trigger] hazards@[k]).shape.wf(),
            !holds_part(shape.points@, hazards@, *filter, i as int),
        decreases hazards.len() - i,
    {
        let h: &Hazard = &hazards[i];
        assert(hazards@[i as int].shape.wf());
        assert(h.shape.points@[0].is_vertex());
        if h.active && filter.is_relevant(&h.entity) {
            let inside: bool = compute_contains(&h.shape.points, &shape.points[0]);
            let hit: bool = match h.entity.position() {
                GeoPosition::Interior => inside || compute_contains(
                    &shape.points,
                    &h.shape.points[0],
                ),
                GeoPosition::Exterior => !inside,
            };
            if hit {
                return true;
            }
        }
        i += 1;
    }
    false
}

/// Tells whether one of the disks reaches one of the hazards that are active
/// and matter for the filter.
pub fn disks_hit<F: HazardFilter>(disks: &Vec<Circle>, hazards: &Vec<Hazard>, filter: &F) -> (r:
    bool)
    requires
        forall|i: int| 0 <= i < disks@.len() ==> (#[trigger] disks@[i]).wf(),
        forall|k: int| 0 <= k < hazards@.len() ==> (#[trigger] hazards@[k]).shape.wf(),
    ensures
        r == any_disk_hit(disks@, disks@.len() as int, hazards@, *filter, hazards@.len() as int),
{
    let mut i: usize = 0;
    while i < hazards.len()
        invariant
            i <= hazards.len(),
            forall|d: int| 0 <= d < disks@.len() ==> (#[trigger] disks@[d]).wf(),
            forall|k: int| 0 <= k < hazards@.len() ==> (#[trigger] hazards@[k]).shape.wf(),
            !any_disk_hit(disks@, disks@.len() as int, hazards@, *filter, i as int),
        decreases hazards.len() - i,
    {
        let h: &Hazard = &hazards[i];
        assert(hazards@[i as int].shape.wf());
        if h.active && filter.is_relevant(&h.entity) {
            let mut d: usize = 0;
            while d < disks.len()
                invariant
                    d <= disks.len(),
                    i < hazards.len(),
                    *h == hazards@[i as int],
                    h.shape.wf(),
                    h.active,
                    filter.spec_is_relevant(h.entity),
                    forall|e: int| 0 <= e < disks@.len() ==> (#[trigger] disks@[e]).wf(),
                    !any_disk_hit(disks@, disks@.len() as int, hazards@, *filter, i as int),
                    forall|e: int| 0 <= e < d ==> !disk_hits(#[trigger] disks@[e], *h),
                decreases disks.len() - d,
            {
                let disk: Circle = disks[d];
                assert(disks@[d as int].wf());
                let r: (GeoPosition, i64) = h.shape.distance_from_border(
                    &disk.center,
                    Rounding::Down,
                );
                let inside: bool = r.0 == GeoPosition::Interior;
                let near: bool = r.1 < disk.radius;
                let hit: bool = match h.entity.position() {
                    GeoPosition::Interior => inside || near,
                    GeoPosition::Exterior => !inside || near,
                };
                if hit {
                    return true;
                }
                d += 1;
            }
        }
        i += 1;
    }
    false
}

} // verus!
