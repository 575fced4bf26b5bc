//! One cell of the hazard proximity grid.

use vstd::prelude::*;
use crate::collision_detection::hazard::{entities_contain, Hazard, HazardEntity};
use crate::entities::item::Item;
use crate::entities::quality_zone::N_QUALITIES;
use crate::geometry::aa_rectangle::AARectangle;
use crate::geometry::arith::{
    ceil_div,
    ceil_root,
    floor_root,
    lemma_ceil_root_exists,
    lemma_floor_root_exists,
    lemma_square_monotone,
};
use crate::geometry::circle::Circle;
use crate::geometry::fail_fast::sp_surrogate::{max_reach, SurrogateView};
use crate::geometry::geo_enums::{GeoPosition, Rounding};
use crate::geometry::metric::{
    edge_within,
    lemma_ceil_root_at_most,
    lemma_edge_distance_bounded,
    lemma_edge_measure,
    lemma_edge_reach,
    lemma_within_of_ceil,
    lemma_floor_root_at_most,
    lemma_proximity_lipschitz,
    lemma_proximity_nonneg,
    lemma_sq_dist_nonneg,
    lemma_sq_dist_symmetric,
    lemma_triangle_sq,
};
use crate::geometry::outline::{
    chain_distance,
    chain_ok,
    chain_position,
    edge_at,
    min_edge_distance,
    min_int,
    DISTANCE_INF,
};
use crate::geometry::point::{dist, sq_dist, Point};

verus! {

/// What stands for the proximity of a hazard that is not there.
pub const PROXIMITY_INF: i64 = i64::MAX;

/// What an update did to a cell.
#[derive(Debug, Clone, Copy, PartialEq, Eq, Structural)]
pub enum HPGCellUpdate {
    /// The cell's nearest hazard changed.
    Affected,
    /// The cell did not change; its neighbours may.
    NotAffected,
    /// The cell did not change, and neither will its neighbours.
    NeighborsNotAffected,
}

/// Why a hazard cannot be registered in a cell after the cell was built.
#[derive(Debug, Clone, Copy, PartialEq, Eq, Structural)]
pub enum HazardRejected {
    /// The hazard holds for some items only.
    NotUniversal,
    /// The hazard forbids the outside of its shape.
    ExteriorForbidden,
    /// The hazard's shape has no disk surrogate.
    NoSurrogate,
}

/// A cell of the grid, with the proximity of the nearest hazard of each kind.
/// A proximity is zero where the cell's centroid is inside the hazard.
#[derive(Debug, Clone, Copy)]
pub struct HPGCell {
    pub bbox: AARectangle,
    pub centroid: Point,
    /// No point of the cell is farther than this from the centroid.
    pub radius: i64,
    /// The nearest hazard that holds for every item, and its proximity.
    pub uni_prox: (i64, HazardEntity),
    /// The same, of the hazards of the bin alone.
    pub static_uni_prox: (i64, HazardEntity),
    /// The proximity of the nearest zone of each quality.
    pub qz_prox: [i64; N_QUALITIES],
}

/// The proximity of a hazard of the bin to `c`: zero on the hazard's
/// forbidden side, else the distance to its nearest edge, rounded up.
pub open spec fn static_prox(h: Hazard, c: Point) -> int {
    if chain_position(h.shape.points@, c) == h.entity.spec_position() {
        0
    } else {
        chain_distance(h.shape.points@, c, Rounding::Up)
    }
}

/// The nearest of the first `k` hazards that hold for every item; of two
/// equally near, the earlier.
pub open spec fn static_uni_fold(hazards: Seq<Hazard>, c: Point, k: nat) -> (int, HazardEntity)
    decreases k,
{
    if k == 0 {
        (PROXIMITY_INF as int, HazardEntity::BinExterior)
    } else {
        let prev = static_uni_fold(hazards, c, (k - 1) as nat);
        let h = hazards[k - 1];
        if h.entity.spec_universal() && static_prox(h, c) < prev.0 {
            (static_prox(h, c), h.entity)
        } else {
            prev
        }
    }
}

/// The proximity of the nearest zone of quality `q` among the first `k`
/// hazards.
pub open spec fn qz_fold(hazards: Seq<Hazard>, c: Point, q: int, k: nat) -> int
    decreases k,
{
    if k == 0 {
        PROXIMITY_INF as int
    } else {
        let prev = qz_fold(hazards, c, q, (k - 1) as nat);
        let h = hazards[k - 1];
        match h.entity {
            HazardEntity::InferiorQualityZone { quality, .. } => if quality == q {
                min_int(prev, static_prox(h, c))
            } else {
                prev
            },
            _ => prev,
        }
    }
}

/// The smallest distance from `c` to one of the first `k` disks, or
/// `PROXIMITY_INF` for `k == 0`.
pub open spec fn poles_proximity(poles: Seq<Circle>, c: Point, k: nat) -> int
    decreases k,
{
    if k == 0 {
        PROXIMITY_INF as int
    } else {
        min_int(poles_proximity(poles, c, (k - 1) as nat), poles[k - 1].spec_proximity(c))
    }
}

/// The proximity of a hazard with a surrogate to `c`: the distance to the
/// nearest of its poles, which is never below the distance to its shape.
pub open spec fn haz_prox(h: Hazard, c: Point) -> int {
    let poles = h.shape.surrogate.unwrap().poles@;
    poles_proximity(poles, c, poles.len())
}

/// A lower bound on the proximity of a hazard with a surrogate: the
/// distance from `c` to the disk around its poles, rounded down.
pub open spec fn bounding_prox(h: Hazard, c: Point) -> int {
    let b = h.shape.surrogate.unwrap().poles_bounding_circle;
    if b.spec_collides_with(c) {
        0
    } else {
        b.spec_border_distance(c, Rounding::Down)
    }
}

/// Why the hazard cannot be registered, if it cannot.
pub open spec fn rejection(h: Hazard) -> Option<HazardRejected> {
    if !h.entity.spec_universal() {
        Some(HazardRejected::NotUniversal)
    } else if h.entity.spec_position() == GeoPosition::Exterior {
        Some(HazardRejected::ExteriorForbidden)
    } else if h.shape.surrogate.is_none() {
        Some(HazardRejected::NoSurrogate)
    } else {
        None
    }
}

/// Why no pole of the hazard can be registered, if none can.
pub open spec fn pole_rejection(h: Hazard) -> Option<HazardRejected> {
    if !h.entity.spec_universal() {
        Some(HazardRejected::NotUniversal)
    } else if h.entity.spec_position() == GeoPosition::Exterior {
        Some(HazardRejected::ExteriorForbidden)
    } else {
        None
    }
}

/// Why the first of the first `k` hazards that is active and cannot be
/// registered cannot be.
pub open spec fn first_rejection(hazards: Seq<Hazard>, k: nat) -> Option<HazardRejected>
    decreases k,
{
    if k == 0 {
        None
    } else {
        match first_rejection(hazards, (k - 1) as nat) {
            Some(e) => Some(e),
            None => if hazards[k - 1].active {
                rejection(hazards[k - 1])
            } else {
                None
            },
        }
    }
}

/// The reach of the disk around the poles covers each pole.
pub proof fn lemma_max_reach_covers(poles: Seq<Circle>, center: Point, k: nat, i: int)
    requires
        0 <= i < k,
    ensures
        max_reach(poles, center, k) >= dist(center, poles[i].center, Rounding::Up)
            + poles[i].radius,
    decreases k,
{
    if i < k - 1 {
        lemma_max_reach_covers(poles, center, (k - 1) as nat, i);
    }
}

/// The smallest of the first `k` distances is no larger than any of them.
pub proof fn lemma_poles_proximity_lower(poles: Seq<Circle>, c: Point, k: nat, i: int)
    requires
        0 <= i < k,
    ensures
        poles_proximity(poles, c, k) <= poles[i].spec_proximity(c),
    decreases k,
{
    if i < k - 1 {
        lemma_poles_proximity_lower(poles, c, (k - 1) as nat, i);
    }
}

/// The smallest of the first `k` distances is one of them.
pub proof fn lemma_poles_proximity_attained(poles: Seq<Circle>, c: Point, k: nat) -> (i: int)
    requires
        k >= 1,
        forall|j: int| 0 <= j < k ==> (#[trigger] poles[j]).spec_proximity(c) <= PROXIMITY_INF,
    ensures
        0 <= i < k,
        poles_proximity(poles, c, k) == poles[i].spec_proximity(c),
    decreases k,
{
    if k == 1 {
        assert(poles_proximity(poles, c, 0) == PROXIMITY_INF);
        0
    } else {
        let j = lemma_poles_proximity_attained(poles, c, (k - 1) as nat);
        if poles[k - 1].spec_proximity(c) < poles_proximity(poles, c, (k - 1) as nat) {
            k - 1
        } else {
            j
        }
    }
}

/// The distance to the disk around a surrogate's poles, rounded down, is a
/// lower bound on the distance to each pole.
pub proof fn lemma_bounding_below_pole(s: SurrogateView, points: Seq<Point>, c: Point, i: int)
    requires
        s.wf_for(points),
        0 <= i < s.poles.len(),
    ensures
        (if s.poles_bounding_circle.spec_collides_with(c) {
            0
        } else {
            s.poles_bounding_circle.spec_border_distance(c, Rounding::Down)
        }) <= s.poles[i].spec_proximity(c),
{
    let b = s.poles_bounding_circle;
    let x0 = b.center;
    let pole = s.poles[i];
    assert(pole.wf());
    lemma_proximity_nonneg(pole, c);
    lemma_max_reach_covers(s.poles, x0, s.poles.len(), i);
    lemma_sq_dist_nonneg(x0, pole.center);
    lemma_sq_dist_nonneg(pole.center, c);
    lemma_sq_dist_nonneg(x0, c);
    lemma_ceil_root_exists(sq_dist(x0, pole.center));
    lemma_ceil_root_exists(sq_dist(pole.center, c));
    lemma_floor_root_exists(sq_dist(x0, c));
    let d0 = ceil_root(sq_dist(x0, pole.center));
    assert(b.radius >= d0 + pole.radius);
    if !b.spec_collides_with(c) {
        if pole.spec_collides_with(c) {
            lemma_triangle_sq(x0, pole.center, c, d0, pole.radius as int);
            lemma_square_monotone(d0 + pole.radius, b.radius as int);
        } else {
            let cq = ceil_root(sq_dist(pole.center, c));
            lemma_triangle_sq(x0, pole.center, c, d0, cq);
            lemma_floor_root_at_most(sq_dist(x0, c), d0 + cq);
        }
    }
}

/// The lower bound of a hazard is no larger than its proximity.
pub proof fn lemma_bounding_below_haz_prox(h: Hazard, c: Point)
    requires
        h.shape.wf(),
        h.shape.surrogate.is_some(),
        c.in_range(),
    ensures
        0 <= bounding_prox(h, c) <= haz_prox(h, c),
{
    let s = h.shape@.surrogate.unwrap();
    assert(s.wf_for(h.shape.points@));
    assert forall|j: int| 0 <= j < s.poles.len() implies (#[trigger] s.poles[j]).spec_proximity(c)
        <= PROXIMITY_INF by {
        assert(s.poles[j].wf());
        lemma_pole_proximity_bounded(s.poles[j], c);
    }
    let i = lemma_poles_proximity_attained(s.poles, c, s.poles.len());
    lemma_bounding_below_pole(s, h.shape.points@, c, i);
    let b = s.poles_bounding_circle;
    if !b.spec_collides_with(c) {
        lemma_sq_dist_nonneg(b.center, c);
        lemma_floor_root_exists(sq_dist(b.center, c));
        let f = floor_root(sq_dist(b.center, c));
        if f < b.radius {
            lemma_square_monotone(f + 1, b.radius as int);
        }
    }
}

/// The distance to a disk fits a machine integer.
pub proof fn lemma_pole_proximity_bounded(pole: Circle, c: Point)
    requires
        pole.wf(),
        c.in_range(),
    ensures
        pole.spec_proximity(c) <= 0x1_0000_0000,
{
    lemma_sq_dist_nonneg(pole.center, c);
    let n = sq_dist(pole.center, c);
    let dx = pole.center.0 - c.0;
    let dy = pole.center.1 - c.1;
    crate::geometry::arith::lemma_mul_bound(dx, dx, 0x8000_0000, 0x8000_0000);
    crate::geometry::arith::lemma_mul_bound(dy, dy, 0x8000_0000, 0x8000_0000);
    lemma_ceil_root_at_most(n, 0x1_0000_0000);
}

/// Once a rejection is found, looking at more hazards does not change it.
pub proof fn lemma_rejection_stays(hazards: Seq<Hazard>, k: nat, m: nat)
    requires
        first_rejection(hazards, k).is_some(),
        k <= m,
    ensures
        first_rejection(hazards, m) == first_rejection(hazards, k),
    decreases m,
{
    if k < m {
        lemma_rejection_stays(hazards, k, (m - 1) as nat);
    }
}

/// The smallest distance from `hp_cell`'s centroid to one of the disks: zero
/// where the centroid lies in one of them.
pub fn distance_to_surrogate_poles_border(hp_cell: &HPGCell, poles: &[Circle]) -> (d: i64)
    requires
        hp_cell.centroid.in_range(),
        poles@.len() >= 1,
        forall|i: int| 0 <= i < poles@.len() ==> (#[trigger] poles@[i]).wf(),
    ensures
        d == poles_proximity(poles@, hp_cell.centroid, poles@.len()),
        0 <= d <= 0x1_0000_0000,
{
    let mut d: i64 = PROXIMITY_INF;
    let mut i: usize = 0;
    while i < poles.len()
        invariant
            i <= poles.len(),
            hp_cell.centroid.in_range(),
            forall|j: int| 0 <= j < poles@.len() ==> (#[trigger] poles@[j]).wf(),
            d == poles_proximity(poles@, hp_cell.centroid, i as nat),
            0 <= d,
            i > 0 ==> d <= 0x1_0000_0000,
        decreases poles.len() - i,
    {
        let pole: Circle = poles[i];
        assert(poles@[i as int].wf());
        let p: i64 = pole.proximity(&hp_cell.centroid);
        if p < d {
            d = p;
        }
        i += 1;
    }
    d
}

/// The smallest of the first `k` zone proximities.
pub open spec fn qz_min(qz_prox: Seq<i64>, k: nat) -> int
    decreases k,
{
    if k == 0 {
        PROXIMITY_INF as int
    } else {
        min_int(qz_min(qz_prox, (k - 1) as nat), qz_prox[k - 1] as int)
    }
}

/// Each entry names an active hazard that can be registered, with its lower
/// bound.
pub open spec fn entries_ok(entries: Seq<(usize, i64)>, hazards: Seq<Hazard>, c: Point) -> bool {
    forall|k: int|
        0 <= k < entries.len() ==> {
            let e = #[trigger] entries[k];
            &&& e.0 < hazards.len()
            &&& hazards[e.0 as int].active
            &&& rejection(hazards[e.0 as int]).is_none()
            &&& e.1 == bounding_prox(hazards[e.0 as int], c)
        }
}

/// Each active hazard is named by an entry or no nearer than `current`.
pub open spec fn all_covered(
    entries: Seq<(usize, i64)>,
    hazards: Seq<Hazard>,
    c: Point,
    current: int,
) -> bool {
    forall|j: int|
        0 <= j < hazards.len() && (#[trigger] hazards[j]).active ==> (exists|k: int|
            0 <= k < entries.len() && (#[trigger] entries[k]).0 == j) || current <= haz_prox(
            hazards[j],
            c,
        )
}

/// Taking out the entry of a hazard that has been registered keeps the other
/// entries in order.
pub proof fn lemma_entry_taken(
    before: Seq<(usize, i64)>,
    m: int,
    hazards: Seq<Hazard>,
    c: Point,
    current_before: int,
    current: int,
)
    requires
        entries_ok(before, hazards, c),
        all_covered(before, hazards, c, current_before),
        0 <= m < before.len(),
        current <= current_before,
        current <= haz_prox(hazards[before[m].0 as int], c),
    ensures
        entries_ok(before.update(m, before.last()).drop_last(), hazards, c),
        all_covered(before.update(m, before.last()).drop_last(), hazards, c, current),
{
    let after = before.update(m, before.last()).drop_last();
    assert forall|k: int| 0 <= k < after.len() implies {
        let e = #[trigger] after[k];
        &&& e.0 < hazards.len()
        &&& hazards[e.0 as int].active
        &&& rejection(hazards[e.0 as int]).is_none()
        &&& e.1 == bounding_prox(hazards[e.0 as int], c)
    } by {
        if k == m {
            assert(after[k] == before[before.len() - 1]);
        } else {
            assert(after[k] == before[k]);
        }
    }
    assert forall|j: int| 0 <= j < hazards.len() && (#[trigger] hazards[j]).active implies (exists|
        k: int,
    | 0 <= k < after.len() && (#[trigger] after[k]).0 == j) || current <= haz_prox(hazards[j], c) by {
        if current_before <= haz_prox(hazards[j], c) {
        } else if j == before[m].0 {
        } else {
            let k = choose|k: int| 0 <= k < before.len() && (#[trigger] before[k]).0 == j;
            assert(k != m);
            if k == before.len() - 1 {
                assert(after[m].0 == j);
            } else {
                assert(after[k].0 == j);
            }
        }
    }
}

/// The new cell is the old one with the nearest universal hazard replaced by
/// the nearest of itself and the active hazards of `hazards`.
pub open spec fn nearest_of(old_cell: HPGCell, hazards: Seq<Hazard>, new_cell: HPGCell) -> bool {
    let c = old_cell.centroid;
    &&& new_cell == (HPGCell { uni_prox: new_cell.uni_prox, ..old_cell })
    &&& new_cell.uni_prox.0 <= old_cell.uni_prox.0
    &&& forall|i: int|
        0 <= i < hazards.len() && (#[trigger] hazards[i]).active ==> new_cell.uni_prox.0
            <= haz_prox(hazards[i], c)
    &&& new_cell.uni_prox == old_cell.uni_prox || exists|i: int|
        0 <= i < hazards.len() && (#[trigger] hazards[i]).active && new_cell.uni_prox.0
            == haz_prox(hazards[i], c) && new_cell.uni_prox.1 == hazards[i].entity
}

impl HPGCell {
    /// The cell's measurements are those of its box and no proximity is
    /// negative; the nearest universal hazard is no farther than the nearest
    /// of the bin's.
    pub open spec fn wf(self) -> bool {
        &&& self.bbox.wf()
        &&& self.centroid == self.bbox.spec_centroid()
        &&& self.centroid.in_range()
        &&& self.radius == self.bbox.spec_radius()
        &&& 0 <= self.radius <= 0x1_0000_0000
        &&& 0 <= self.uni_prox.0 <= self.static_uni_prox.0
        &&& forall|q: int| 0 <= q < N_QUALITIES ==> 0 <= #[trigger] self.qz_prox[q]
    }

    /// The cell of the box `bbox` in a bin with the given hazards.
    pub fn new(bbox: AARectangle, static_hazards: &[Hazard]) -> (cell: HPGCell)
        requires
            bbox.wf(),
            forall|i: int|
                0 <= i < static_hazards@.len() ==> (#[trigger] static_hazards@[i]).wf()
                    && !static_hazards@[i].entity.spec_dynamic(),
        ensures
            cell.wf(),
            cell.bbox == bbox,
            cell.static_uni_prox.0 == static_uni_fold(
                static_hazards@,
                bbox.spec_centroid(),
                static_hazards@.len(),
            ).0,
            cell.static_uni_prox.1 == static_uni_fold(
                static_hazards@,
                bbox.spec_centroid(),
                static_hazards@.len(),
            ).1,
            cell.uni_prox == cell.static_uni_prox,
            forall|q: int|
                0 <= q < N_QUALITIES ==> #[trigger] cell.qz_prox[q] == qz_fold(
                    static_hazards@,
                    bbox.spec_centroid(),
                    q,
                    static_hazards@.len(),
                ),
    {
        let centroid: Point = bbox.centroid();
        let radius: i64 = bbox.radius();
        let mut static_uni_prox: (i64, HazardEntity) = (PROXIMITY_INF, HazardEntity::BinExterior);
        let mut qz_prox: [i64; N_QUALITIES] = [
            PROXIMITY_INF,
            PROXIMITY_INF,
            PROXIMITY_INF,
            PROXIMITY_INF,
            PROXIMITY_INF,
            PROXIMITY_INF,
            PROXIMITY_INF,
            PROXIMITY_INF,
            PROXIMITY_INF,
            PROXIMITY_INF,
        ];
        let mut i: usize = 0;
        while i < static_hazards.len()
            invariant
                i <= static_hazards.len(),
                centroid == bbox.spec_centroid(),
                centroid.in_range(),
                forall|j: int|
                    0 <= j < static_hazards@.len() ==> (#[trigger] static_hazards@[j]).wf()
                        && !static_hazards@[j].entity.spec_dynamic(),
                static_uni_prox.0 == static_uni_fold(static_hazards@, centroid, i as nat).0,
                static_uni_prox.1 == static_uni_fold(static_hazards@, centroid, i as nat).1,
                0 <= static_uni_prox.0,
                forall|q: int|
                    0 <= q < N_QUALITIES ==> #[trigger] qz_prox[q] == qz_fold(
                        static_hazards@,
                        centroid,
                        q,
                        i as nat,
                    ) && 0 <= qz_prox[q],
            decreases static_hazards.len() - i,
        {
            let hazard: &Hazard = &static_hazards[i];
            assert(static_hazards@[i as int].wf());
            let r: (GeoPosition, i64) = hazard.shape.distance_from_border(&centroid, Rounding::Up);
            let prox: i64 = if r.0 == hazard.entity.position() {
                0
            } else {
                r.1
            };
            assert(prox == static_prox(*hazard, centroid));
            match hazard.entity {
                HazardEntity::InferiorQualityZone { quality, .. } => {
                    if prox < qz_prox[quality] {
                        qz_prox[quality] = prox;
                    }
                },
                _ => {
                    if prox < static_uni_prox.0 {
                        static_uni_prox = (prox, hazard.entity);
                    }
                },
            }
            i += 1;
        }
        HPGCell { bbox, centroid, radius, uni_prox: static_uni_prox, static_uni_prox, qz_prox }
    }

    /// The cell after a hazard of the given proximity was registered, and
    /// what the update did.
    pub open spec fn spec_register(self, prox: int, entity: HazardEntity) -> (
        HPGCell,
        HPGCellUpdate,
    ) {
        if prox < self.uni_prox.0 {
            (HPGCell { uni_prox: (prox as i64, entity), ..self }, HPGCellUpdate::Affected)
        } else if prox > self.uni_prox.0 + 2 * self.radius {
            (self, HPGCellUpdate::NeighborsNotAffected)
        } else {
            (self, HPGCellUpdate::NotAffected)
        }
    }

    /// The cell after one pole of a hazard, of the given proximity, was
    /// registered, and what the update did.
    pub open spec fn spec_register_pole(self, prox: int, entity: HazardEntity) -> (
        HPGCell,
        HPGCellUpdate,
    ) {
        if prox < self.uni_prox.0 {
            (HPGCell { uni_prox: (prox as i64, entity), ..self }, HPGCellUpdate::Affected)
        } else if prox - 2 * self.radius > self.uni_prox.0 + 2 * self.radius {
            (self, HPGCellUpdate::NeighborsNotAffected)
        } else {
            (self, HPGCellUpdate::NotAffected)
        }
    }

    /// Tells why the hazard cannot be registered, if it cannot.
    pub fn check_hazard(to_register: &Hazard) -> (r: Option<HazardRejected>)
        ensures
            r == rejection(*to_register),
    {
        if !to_register.entity.universal() {
            Some(HazardRejected::NotUniversal)
        } else if to_register.entity.position() == GeoPosition::Exterior {
            Some(HazardRejected::ExteriorForbidden)
        } else if to_register.shape.surrogate.is_none() {
            Some(HazardRejected::NoSurrogate)
        } else {
            None
        }
    }

    /// Registers a hazard that has appeared in the layout: it becomes the
    /// cell's nearest where it is strictly nearer than the nearest so far.
    pub fn register_hazard(&mut self, to_register: &Hazard) -> (r: Result<
        HPGCellUpdate,
        HazardRejected,
    >)
        requires
            old(self).wf(),
            to_register.shape.wf(),
        ensures
            final(self).wf(),
            match r {
                Ok(u) => {
                    &&& rejection(*to_register).is_none()
                    &&& (*final(self), u) == old(self).spec_register(
                        haz_prox(*to_register, old(self).centroid),
                        to_register.entity,
                    )
                    &&& 0 <= haz_prox(*to_register, old(self).centroid) <= 0x1_0000_0000
                },
                Err(e) => rejection(*to_register) == Some(e) && *final(self) == *old(self),
            },
    {
        match HPGCell::check_hazard(to_register) {
            Some(e) => {
                return Err(e);
            },
            None => {},
        }
        let current_prox: i64 = self.uni_prox.0;
        let prox: i64 = match &to_register.shape.surrogate {
            Some(s) => {
                proof {
                    assert(to_register.shape@.surrogate.unwrap().wf_for(to_register.shape.points@));
                    assert(s@ == to_register.shape@.surrogate.unwrap());
                }
                distance_to_surrogate_poles_border(self, s.poles.as_slice())
            },
            None => 0,
        };
        if prox < current_prox {
            self.uni_prox = (prox, to_register.entity);
            Ok(HPGCellUpdate::Affected)
        } else if (prox as i128) > (current_prox as i128) + 2 * (self.radius as i128) {
            Ok(HPGCellUpdate::NeighborsNotAffected)
        } else {
            Ok(HPGCellUpdate::NotAffected)
        }
    }

    /// Registers one pole of a hazard that has appeared in the layout.
    pub fn register_hazard_pole(&mut self, to_register: &Hazard, pole: &Circle) -> (r: Result<
        HPGCellUpdate,
        HazardRejected,
    >)
        requires
            old(self).wf(),
            pole.wf(),
        ensures
            final(self).wf(),
            match r {
                Ok(u) => {
                    &&& pole_rejection(*to_register).is_none()
                    &&& (*final(self), u) == old(self).spec_register_pole(
                        pole.spec_proximity(old(self).centroid),
                        to_register.entity,
                    )
                    &&& 0 <= pole.spec_proximity(old(self).centroid) <= 0x1_0000_0000
                },
                Err(e) => pole_rejection(*to_register) == Some(e) && *final(self) == *old(self),
            },
    {
        if !to_register.entity.universal() {
            return Err(HazardRejected::NotUniversal);
        }
        if to_register.entity.position() == GeoPosition::Exterior {
            return Err(HazardRejected::ExteriorForbidden);
        }
        let current_prox: i64 = self.uni_prox.0;
        let prox: i64 = pole.proximity(&self.centroid);
        if prox < current_prox {
            self.uni_prox = (prox, to_register.entity);
            Ok(HPGCellUpdate::Affected)
        } else {
            let max_neighbor_distance: i128 = 2 * (self.radius as i128);
            let haz_prox_lower_bound: i128 = (prox as i128) - max_neighbor_distance;
            let current_prox_upper_bound: i128 = (current_prox as i128) + max_neighbor_distance;
            if haz_prox_lower_bound > current_prox_upper_bound {
                Ok(HPGCellUpdate::NeighborsNotAffected)
            } else {
                Ok(HPGCellUpdate::NotAffected)
            }
        }
    }

    /// The lower bound on the proximity of a hazard with a surrogate.
    fn bounding_proximity(&self, hazard: &Hazard) -> (d: i64)
        requires
            self.wf(),
            hazard.shape.wf(),
            hazard.shape.surrogate.is_some(),
        ensures
            d == bounding_prox(*hazard, self.centroid),
            0 <= d <= haz_prox(*hazard, self.centroid),
    {
        proof {
            lemma_bounding_below_haz_prox(*hazard, self.centroid);
        }
        match &hazard.shape.surrogate {
            Some(s) => {
                proof {
                    assert(hazard.shape@.surrogate.unwrap().wf_for(hazard.shape.points@));
                    assert(s@ == hazard.shape@.surrogate.unwrap());
                }
                let r: (GeoPosition, i64) = s.poles_bounding_circle.distance_from_border(
                    &self.centroid,
                    Rounding::Down,
                );
                match r.0 {
                    GeoPosition::Interior => 0,
                    GeoPosition::Exterior => r.1,
                }
            },
            None => 0,
        }
    }

    /// Registers the active hazards among `to_register`, nearest lower bound
    /// first, and stops at the first whose lower bound exceeds the proximity
    /// of the nearest hazard so far: neither it nor any later one can be
    /// nearer. Nothing is registered where one of them cannot be.
    pub fn register_hazards(&mut self, to_register: &[Hazard]) -> (r: Result<(), HazardRejected>)
        requires
            old(self).wf(),
            forall|i: int| 0 <= i < to_register@.len() ==> (#[trigger] to_register@[i]).shape.wf(),
        ensures
            final(self).wf(),
            match r {
                Ok(_) => first_rejection(to_register@, to_register@.len()).is_none() && nearest_of(
                    *old(self),
                    to_register@,
                    *final(self),
                ),
                Err(e) => first_rejection(to_register@, to_register@.len()) == Some(e) && *final(self) == *old(self),
            },
    {
        let n: usize = to_register.len();
        let mut entries: Vec<(usize, i64)> = Vec::new();
        let mut i: usize = 0;
        while i < n
            invariant
                n == to_register@.len(),
                i <= n,
                self.wf(),
                *self == *old(self),
                forall|j: int| 0 <= j < to_register@.len() ==> (#[trigger] to_register@[j]).shape.wf(),
                first_rejection(to_register@, i as nat).is_none(),
                entries_ok(entries@, to_register@, self.centroid),
                forall|j: int|
                    0 <= j < i && (#[trigger] to_register@[j]).active ==> exists|k: int|
                        0 <= k < entries@.len() && (#[trigger] entries@[k]).0 == j,
            decreases n - i,
        {
            let hazard: &Hazard = &to_register[i];
            assert(to_register@[i as int].shape.wf());
            if hazard.active {
                match HPGCell::check_hazard(hazard) {
                    Some(e) => {
                        proof {
                            assert(first_rejection(to_register@, (i + 1) as nat) == Some(e));
                            lemma_rejection_stays(to_register@, (i + 1) as nat, n as nat);
                        }
                        return Err(e);
                    },
                    None => {},
                }
                let bp: i64 = self.bounding_proximity(hazard);
                let ghost before = entries@;
                entries.push((i, bp));
                proof {
                    assert forall|j: int|
                        0 <= j < i + 1 && (#[trigger] to_register@[j]).active implies exists|k: int|
                        0 <= k < entries@.len() && (#[trigger] entries@[k]).0 == j by {
                        if j < i {
                            let k = choose|k: int|
                                0 <= k < before.len() && (#[trigger] before[k]).0 == j;
                            assert(entries@[k].0 == j);
                        } else {
                            assert(entries@[before.len() as int].0 == j);
                        }
                    }
                }
            }
            i += 1;
        }
        proof {
            assert(all_covered(entries@, to_register@, self.centroid, self.uni_prox.0 as int));
            assert(entries_ok(entries@, to_register@, self.centroid));
        }
        let mut done: bool = false;
        while !done && entries.len() > 0
            invariant
                n == to_register@.len(),
                self.wf(),
                *self == (HPGCell { uni_prox: self.uni_prox, ..*old(self) }),
                self.uni_prox.0 <= old(self).uni_prox.0,
                forall|j: int| 0 <= j < to_register@.len() ==> (#[trigger] to_register@[j]).shape.wf(),
                entries_ok(entries@, to_register@, self.centroid),
                all_covered(entries@, to_register@, self.centroid, self.uni_prox.0 as int),
                self.uni_prox == old(self).uni_prox || exists|j: int|
                    0 <= j < n && (#[trigger] to_register@[j]).active && self.uni_prox.0 == haz_prox(
                        to_register@[j],
                        self.centroid,
                    ) && self.uni_prox.1 == to_register@[j].entity,
                done ==> forall|k: int|
                    0 <= k < entries@.len() ==> self.uni_prox.0 < (#[trigger] entries@[k]).1,
            decreases entries.len(), (if done { 0int } else { 1int }),
        {
            let len: usize = entries.len();
            let mut m: usize = 0;
            let mut j: usize = 1;
            while j < len
                invariant
                    len == entries@.len(),
                    1 <= j <= len,
                    m < j,
                    forall|k: int| 0 <= k < j ==> entries@[m as int].1 <= (#[trigger] entries@[k]).1,
                decreases len - j,
            {
                if entries[j].1 < entries[m].1 {
                    m = j;
                }
                j += 1;
            }
            let entry: (usize, i64) = entries[m];
            let current: i64 = self.uni_prox.0;
            if entry.1 <= current {
                let ghost before = entries@;
                let ghost cell0 = *self;
                assert(entry == before[m as int]);
                let hazard: &Hazard = &to_register[entry.0];
                assert(to_register@[entry.0 as int].shape.wf());
                let res: Result<HPGCellUpdate, HazardRejected> = self.register_hazard(hazard);
                assert(res.is_ok());
                entries.swap_remove(m);
                proof {
                    lemma_entry_taken(
                        before,
                        m as int,
                        to_register@,
                        cell0.centroid,
                        cell0.uni_prox.0 as int,
                        self.uni_prox.0 as int,
                    );
                }
            } else {
                done = true;
                proof {
                    assert forall|k: int| 0 <= k < entries@.len() implies self.uni_prox.0 < (
                    #[trigger] entries@[k]).1 by {
                        assert(entries@[m as int].1 <= entries@[k].1);
                    }
                }
            }
        }
        proof {
            assert forall|j: int|
                0 <= j < to_register@.len() && (#[trigger] to_register@[j]).active implies self.uni_prox.0
                <= haz_prox(to_register@[j], self.centroid) by {
                if !(self.uni_prox.0 <= haz_prox(to_register@[j], self.centroid)) {
                    let k = choose|k: int| 0 <= k < entries@.len() && (#[trigger] entries@[k]).0 == j;
                    assert(done);
                    assert(self.uni_prox.0 < entries@[k].1);
                    lemma_bounding_below_haz_prox(to_register@[j], self.centroid);
                }
            }
        }
        Ok(())
    }

    /// Takes the hazards of `to_deregister` out of the cell. Where the
    /// cell's nearest hazard is among them, the nearest is sought again among
    /// the hazards of the bin and the active hazards of `remaining`.
    pub fn deregister_hazards(
        &mut self,
        to_deregister: &Vec<HazardEntity>,
        remaining: &[Hazard],
    ) -> (r: Result<HPGCellUpdate, HazardRejected>)
        requires
            old(self).wf(),
            forall|i: int| 0 <= i < remaining@.len() ==> (#[trigger] remaining@[i]).shape.wf(),
        ensures
            final(self).wf(),
            match r {
                Ok(u) => if to_deregister@.contains(old(self).uni_prox.1) {
                    &&& u == HPGCellUpdate::Affected
                    &&& first_rejection(remaining@, remaining@.len()).is_none()
                    &&& nearest_of(
                        HPGCell { uni_prox: old(self).static_uni_prox, ..*old(self) },
                        remaining@,
                        *final(self),
                    )
                } else {
                    u == HPGCellUpdate::NotAffected && *final(self) == *old(self)
                },
                Err(e) => to_deregister@.contains(old(self).uni_prox.1) && first_rejection(
                    remaining@,
                    remaining@.len(),
                ) == Some(e) && *final(self) == *old(self),
            },
    {
        if entities_contain(to_deregister, &self.uni_prox.1) {
            let saved: (i64, HazardEntity) = self.uni_prox;
            self.uni_prox = self.static_uni_prox;
            match self.register_hazards(remaining) {
                Ok(_) => Ok(HPGCellUpdate::Affected),
                Err(e) => {
                    self.uni_prox = saved;
                    Err(e)
                },
            }
        } else {
            Ok(HPGCellUpdate::NotAffected)
        }
    }

    pub fn bbox(&self) -> (r: &AARectangle)
        ensures
            *r == self.bbox,
    {
        &self.bbox
    }

    pub fn radius(&self) -> (r: i64)
        ensures
            r == self.radius,
    {
        self.radius
    }

    pub fn centroid(&self) -> (r: Point)
        ensures
            r == self.centroid,
    {
        self.centroid
    }

    /// The proximity of the nearest hazard that matters for an item of the
    /// given quality: the nearest universal hazard, or the nearest zone of a
    /// quality below the item's; with no quality given, of any quality.
    pub open spec fn spec_hazard_proximity(self, quality_level: Option<usize>) -> int {
        let n = match quality_level {
            Some(q) => q as nat,
            None => N_QUALITIES as nat,
        };
        min_int(self.uni_prox.0 as int, qz_min(self.qz_prox@, n))
    }

    pub fn hazard_proximity(&self, quality_level: Option<usize>) -> (r: i64)
        requires
            match quality_level {
                Some(q) => q <= N_QUALITIES,
                None => true,
            },
        ensures
            r == self.spec_hazard_proximity(quality_level),
    {
        let mut haz_prox: i64 = self.uni_prox.0;
        let n: usize = match quality_level {
            Some(q) => q,
            None => N_QUALITIES,
        };
        let mut quality: usize = 0;
        while quality < n
            invariant
                quality <= n <= N_QUALITIES,
                haz_prox == min_int(self.uni_prox.0 as int, qz_min(self.qz_prox@, quality as nat)),
            decreases n - quality,
        {
            if self.qz_prox[quality] < haz_prox {
                haz_prox = self.qz_prox[quality];
            }
            quality += 1;
        }
        haz_prox
    }

    /// Whether an item with the given pole of inaccessibility and quality may
    /// fit with that pole's centre in the cell: always where the cell is
    /// coarser than the pole, else where the pole's radius is below the
    /// proximity of the nearest relevant hazard plus the cell's radius.
    pub open spec fn spec_could_accommodate(self, poi_radius: int, base_quality: Option<usize>) -> bool {
        if self.radius > poi_radius {
            true
        } else {
            poi_radius < self.spec_hazard_proximity(base_quality) + self.radius
        }
    }

    /// A necessary condition for `item` to fit with the centre of its pole
    /// of inaccessibility in the cell.
    pub fn could_accommodate_item(&self, item: &Item) -> (r: bool)
        requires
            item.wf(),
        ensures
            r == self.spec_could_accommodate(item.shape.poi.radius as int, item.base_quality),
    {
        self.could_accommodate(item.shape.poi.radius, item.base_quality)
    }

    /// A necessary condition for a shape of the given quality, whose pole of
    /// inaccessibility has the given radius, to fit with the centre of that
    /// pole in the cell.
    pub fn could_accommodate(&self, poi_radius: i64, base_quality: Option<usize>) -> (r: bool)
        requires
            match base_quality {
                Some(q) => q <= N_QUALITIES,
                None => true,
            },
        ensures
            r == self.spec_could_accommodate(poi_radius as int, base_quality),
    {
        if self.radius > poi_radius {
            true
        } else {
            let haz_prox: i64 = self.hazard_proximity(base_quality);
            (poi_radius as i128) < (haz_prox as i128) + (self.radius as i128)
        }
    }

    pub fn universal_hazard_proximity(&self) -> (r: &(i64, HazardEntity))
        ensures
            *r == self.uni_prox,
    {
        &self.uni_prox
    }

    pub fn bin_haz_prox(&self) -> (r: i64)
        ensures
            r == self.static_uni_prox.0,
    {
        self.static_uni_prox.0
    }

    pub fn qz_haz_prox(&self) -> (r: [i64; 10])
        ensures
            r == self.qz_prox,
    {
        self.qz_prox
    }

    pub fn static_uni_haz_prox(&self) -> (r: &(i64, HazardEntity))
        ensures
            *r == self.static_uni_prox,
    {
        &self.static_uni_prox
    }
}

/// The proximity of a hazard with a surrogate changes by no more than the
/// distance moved, rounded up.
pub proof fn lemma_haz_prox_lipschitz(h: Hazard, p: Point, q: Point)
    requires
        h.shape.wf(),
        h.shape.surrogate.is_some(),
        p.in_range(),
        q.in_range(),
    ensures
        haz_prox(h, p) <= haz_prox(h, q) + dist(p, q, Rounding::Up),
{
    let s = h.shape@.surrogate.unwrap();
    assert(s.wf_for(h.shape.points@));
    assert forall|j: int| 0 <= j < s.poles.len() implies (#[trigger] s.poles[j]).spec_proximity(q)
        <= PROXIMITY_INF by {
        assert(s.poles[j].wf());
        lemma_pole_proximity_bounded(s.poles[j], q);
    }
    let i = lemma_poles_proximity_attained(s.poles, q, s.poles.len());
    lemma_poles_proximity_lower(s.poles, p, s.poles.len(), i);
    assert(s.poles[i].wf());
    lemma_proximity_lipschitz(s.poles[i], p, q);
}

/// Where registering a pole in a cell tells that the neighbours are not
/// affected, registering it in a neighbour does not change the neighbour:
/// its nearest hazard stays, at the distance it was.
///
/// A neighbour is a cell whose nearest hazard, seen from this cell's
/// centroid, is no farther than this cell's nearest by more than four times
/// this cell's radius. That holds of every cell whose centroid is within
/// twice this cell's radius where the two cells have registered the same
/// hazards, for then their nearest hazards differ by no more than the
/// distance of their centroids.
pub proof fn law_pole_leaves_neighbors(
    cell: HPGCell,
    neighbor: HPGCell,
    pole: Circle,
    entity: HazardEntity,
)
    requires
        pole.radius >= 0,
        cell.spec_register_pole(pole.spec_proximity(cell.centroid), entity).1
            == HPGCellUpdate::NeighborsNotAffected,
        neighbor.uni_prox.0 + dist(cell.centroid, neighbor.centroid, Rounding::Up)
            <= cell.uni_prox.0 + 4 * cell.radius,
    ensures
        neighbor.spec_register_pole(pole.spec_proximity(neighbor.centroid), entity).0 == neighbor,
        pole.spec_proximity(neighbor.centroid) >= neighbor.uni_prox.0,
{
    lemma_proximity_lipschitz(pole, cell.centroid, neighbor.centroid);
}

/// Where registering a hazard in a cell tells that the neighbours are not
/// affected, registering it in a neighbour does not change the neighbour:
/// its nearest hazard stays, at the distance it was.
///
/// A neighbour is a cell whose nearest hazard, seen from this cell's
/// centroid, is no farther than this cell's nearest by more than twice this
/// cell's radius.
pub proof fn law_hazard_leaves_neighbors(cell: HPGCell, neighbor: HPGCell, h: Hazard)
    requires
        h.shape.wf(),
        h.shape.surrogate.is_some(),
        cell.centroid.in_range(),
        neighbor.centroid.in_range(),
        cell.spec_register(haz_prox(h, cell.centroid), h.entity).1
            == HPGCellUpdate::NeighborsNotAffected,
        neighbor.uni_prox.0 + dist(cell.centroid, neighbor.centroid, Rounding::Up)
            <= cell.uni_prox.0 + 2 * cell.radius,
    ensures
        neighbor.spec_register(haz_prox(h, neighbor.centroid), h.entity).0 == neighbor,
        haz_prox(h, neighbor.centroid) >= neighbor.uni_prox.0,
{
    lemma_haz_prox_lipschitz(h, cell.centroid, neighbor.centroid);
}

/// Whether the two disks share a point: their centres are no farther apart
/// than the sum of their radii.
pub open spec fn disks_meet(a: Circle, b: Circle) -> bool {
    sq_dist(a.center, b.center) <= (a.radius + b.radius) * (a.radius + b.radius)
}

/// Where a cell tells that it cannot accommodate an item, and the nearest
/// hazard that matters for the item is a hazard with a surrogate, the
/// item's pole of inaccessibility meets a pole of that hazard wherever in
/// the cell its centre lies: no placement with the centre in the cell is
/// free of collisions.
pub proof fn law_rejection_is_sound(
    cell: HPGCell,
    h: Hazard,
    poi_radius: i64,
    base_quality: Option<usize>,
    p: Point,
) -> (i: int)
    requires
        h.shape.wf(),
        h.shape.surrogate.is_some(),
        cell.centroid.in_range(),
        cell.radius >= 0,
        cell.spec_hazard_proximity(base_quality) == haz_prox(h, cell.centroid),
        !cell.spec_could_accommodate(poi_radius as int, base_quality),
        sq_dist(p, cell.centroid) <= cell.radius * cell.radius,
    ensures
        0 <= i < h.shape.surrogate.unwrap().poles@.len(),
        disks_meet(Circle { center: p, radius: poi_radius }, h.shape.surrogate.unwrap().poles@[i]),
{
    let c = cell.centroid;
    let r = cell.radius as int;
    let s = h.shape@.surrogate.unwrap();
    assert(s.wf_for(h.shape.points@));
    assert forall|j: int| 0 <= j < s.poles.len() implies (#[trigger] s.poles[j]).spec_proximity(c)
        <= PROXIMITY_INF by {
        assert(s.poles[j].wf());
        lemma_pole_proximity_bounded(s.poles[j], c);
    }
    let i = lemma_poles_proximity_attained(s.poles, c, s.poles.len());
    let pole = s.poles[i];
    assert(pole.wf());
    let hp = haz_prox(h, c);
    lemma_proximity_nonneg(pole, c);
    lemma_sq_dist_nonneg(pole.center, c);
    lemma_ceil_root_exists(sq_dist(pole.center, c));
    lemma_sq_dist_symmetric(pole.center, c);
    let reach = if pole.spec_collides_with(c) {
        pole.radius as int
    } else {
        ceil_root(sq_dist(pole.center, c))
    };
    assert(sq_dist(c, pole.center) <= reach * reach);
    assert(reach <= hp + pole.radius);
    lemma_triangle_sq(p, c, pole.center, r, reach);
    lemma_square_monotone(r + reach, poi_radius + pole.radius);
    i
}

/// The distance from a point in range to a chain is that to one of its
/// edges.
pub proof fn lemma_chain_distance_attained(points: Seq<Point>, p: Point, k: nat) -> (i: int)
    requires
        chain_ok(points),
        p.in_range(),
        1 <= k <= points.len(),
    ensures
        0 <= i < k,
        min_edge_distance(points, p, Rounding::Up, k) == edge_at(points, i).spec_distance(
            p,
            Rounding::Up,
        ),
    decreases k,
{
    let e = edge_at(points, k - 1);
    assert(e.wf());
    lemma_edge_distance_bounded(e, p);
    if k == 1 {
        assert(min_edge_distance(points, p, Rounding::Up, 0) == DISTANCE_INF);
        0
    } else {
        let j = lemma_chain_distance_attained(points, p, (k - 1) as nat);
        if min_edge_distance(points, p, Rounding::Up, (k - 1) as nat) <= e.spec_distance(
            p,
            Rounding::Up,
        ) {
            j
        } else {
            k - 1
        }
    }
}

/// Where a cell tells that it cannot accommodate an item, and the nearest
/// hazard that matters for the item is a hazard of the bin, the item's pole
/// of inaccessibility reaches that hazard wherever in the cell its centre
/// lies: it holds the cell's centroid where that lies on the hazard's
/// forbidden side, and else a point of one of the hazard's edges.
pub proof fn law_static_rejection_is_sound(
    cell: HPGCell,
    h: Hazard,
    poi_radius: i64,
    base_quality: Option<usize>,
    p: Point,
) -> (i: int)
    requires
        h.shape.wf(),
        cell.centroid.in_range(),
        cell.radius >= 0,
        cell.spec_hazard_proximity(base_quality) == static_prox(h, cell.centroid),
        !cell.spec_could_accommodate(poi_radius as int, base_quality),
        sq_dist(p, cell.centroid) <= cell.radius * cell.radius,
    ensures
        0 <= i < h.shape.points@.len(),
        if chain_position(h.shape.points@, cell.centroid) == h.entity.spec_position() {
            sq_dist(p, cell.centroid) <= poi_radius * poi_radius
        } else {
            edge_within(edge_at(h.shape.points@, i), p, poi_radius * poi_radius)
        },
{
    let c = cell.centroid;
    let r = cell.radius as int;
    let points = h.shape.points@;
    assert(chain_ok(points));
    let i = lemma_chain_distance_attained(points, c, points.len());
    let e = edge_at(points, i);
    assert(e.wf());
    if chain_position(points, c) == h.entity.spec_position() {
        lemma_square_monotone(r, poi_radius as int);
    } else {
        let near = e.spec_distance(c, Rounding::Up);
        lemma_edge_distance_bounded(e, c);
        lemma_edge_measure(e, c);
        lemma_edge_measure(e, p);
        lemma_ceil_root_exists(ceil_div(e.sq_distance_num(c), e.sq_distance_den(c)));
        lemma_within_of_ceil(e.sq_distance_num(c), e.sq_distance_den(c), near * near);
        lemma_edge_reach(e, c, p, near, r);
        lemma_square_monotone(near + r, poi_radius as int);
        let m = e.sq_distance_den(p);
        let a = (near + r) * (near + r);
        let b = poi_radius * poi_radius;
        assert(a * m <= b * m) by (nonlinear_arith)
            requires
                a <= b,
                m > 0,
        ;
    }
    i
}

} // verus!
