//! Simple polygons with their cached measurements.

use vstd::prelude::*;
use crate::geometry::aa_rectangle::AARectangle;
use crate::geometry::circle::Circle;
use crate::geometry::edge::Edge;
use crate::geometry::fail_fast::poi::{
    disjoint_disks,
    inscribed,
    next_pole_of_chain,
    poles_sound,
    spec_additional_poles,
    spec_next_pole,
};
use crate::geometry::fail_fast::sp_surrogate::{min_usize, SPSurrogate, SurrogateView};
use crate::geometry::geo_enums::{GeoPosition, Rounding};
use crate::geometry::outline::{
    chain_centroid_x,
    chain_centroid_y,
    chain_contains,
    chain_distance,
    chain_ok,
    chain_position,
    check_chain,
    compute_bbox,
    compute_centroid,
    compute_contains,
    compute_distance,
    compute_signed_double_area,
    edge_at,
    edge_of,
    is_bbox_of,
    lemma_bbox_unique,
    signed_double_area,
};
use crate::geometry::point::Point;
use crate::geometry::transformation::Transformation;
use crate::util::config::SPSurrogateConfig;

verus! {

/// Why a sequence of points is not accepted as a polygon.
#[derive(Clone, Copy, Debug, PartialEq, Eq, Structural)]
pub enum ShapeError {
    /// Fewer than three vertices or too many, a vertex out of range, or two
    /// equal neighbours.
    InvalidOutline,
    /// The outline encloses no area.
    ZeroArea,
    /// The enclosed area exceeds the bounding box, or the centre of mass
    /// lies outside it: the outline crosses itself.
    SelfIntersecting,
    /// No lattice disk of positive radius fits inside.
    Degenerate,
}

/// A polygon given by its vertices in order, the last joined to the first.
#[derive(Debug)]
pub struct SimplePolygon {
    pub points: Vec<Point>,
    /// The smallest rectangle around the vertices.
    pub bbox: AARectangle,
    /// Twice the enclosed area, positive when the vertices run
    /// counter-clockwise.
    pub area2: i64,
    /// The centre of mass of the enclosed area, rounded down.
    pub centroid: Point,
    /// The pole of inaccessibility.
    pub poi: Circle,
    /// The disk surrogate, once generated.
    pub surrogate: Option<SPSurrogate>,
}

/// What a polygon holds, as mathematical values.
pub struct PolygonView {
    pub points: Seq<Point>,
    pub bbox: AARectangle,
    pub area2: i64,
    pub centroid: Point,
    pub poi: Circle,
    pub surrogate: Option<SurrogateView>,
}

impl View for SimplePolygon {
    type V = PolygonView;

    open spec fn view(&self) -> PolygonView {
        PolygonView {
            points: self.points@,
            bbox: self.bbox,
            area2: self.area2,
            centroid: self.centroid,
            poi: self.poi,
            surrogate: match self.surrogate {
                Some(s) => Some(s@),
                None => None,
            },
        }
    }
}

/// The smallest rectangle around the points.
pub open spec fn chain_bbox(points: Seq<Point>) -> AARectangle {
    choose|b: AARectangle| is_bbox_of(points, points.len() as int, b)
}

/// The absolute value of an integer.
pub open spec fn abs_int(a: int) -> int {
    if a >= 0 {
        a
    } else {
        -a
    }
}

/// The centre of mass of the area enclosed by the chain, rounded down.
pub open spec fn chain_centroid(points: Seq<Point>) -> (int, int) {
    (chain_centroid_x(points), chain_centroid_y(points))
}

/// The first reason, if any, for which the points are not accepted as a
/// polygon.
pub open spec fn polygon_defect(points: Seq<Point>) -> Option<ShapeError> {
    let bbox = chain_bbox(points);
    let c = chain_centroid(points);
    if !chain_ok(points) {
        Some(ShapeError::InvalidOutline)
    } else if signed_double_area(points) == 0 {
        Some(ShapeError::ZeroArea)
    } else if abs_int(signed_double_area(points)) > 2 * bbox.spec_area() || !(bbox.x_min <= c.0
        <= bbox.x_max && bbox.y_min <= c.1 <= bbox.y_max) {
        Some(ShapeError::SelfIntersecting)
    } else if spec_next_pole(points, Seq::<Circle>::empty(), bbox).is_none() {
        Some(ShapeError::Degenerate)
    } else {
        None
    }
}

impl PolygonView {
    /// The vertices form an acceptable polygon and every cached measurement
    /// is the one that the vertices determine.
    pub open spec fn wf(self) -> bool {
        &&& polygon_defect(self.points).is_none()
        &&& self.bbox == chain_bbox(self.points)
        &&& is_bbox_of(self.points, self.points.len() as int, self.bbox)
        &&& self.bbox.wf()
        &&& Point(self.bbox.x_min, self.bbox.y_min).is_vertex()
        &&& Point(self.bbox.x_max, self.bbox.y_max).is_vertex()
        &&& self.area2 == signed_double_area(self.points)
        &&& self.centroid.0 == chain_centroid_x(self.points)
        &&& self.centroid.1 == chain_centroid_y(self.points)
        &&& spec_next_pole(self.points, Seq::<Circle>::empty(), self.bbox) == Some(self.poi)
        &&& poles_sound(self.points, seq![self.poi])
        &&& match self.surrogate {
            Some(s) => s.wf_for(self.points) && s.poles[0] == self.poi,
            None => true,
        }
    }

    /// Twice the enclosed area.
    pub open spec fn double_area(self) -> int {
        abs_int(self.area2 as int)
    }
}

impl SimplePolygon {
    /// The polygon is what its vertices determine.
    pub open spec fn wf(&self) -> bool {
        self@.wf()
    }

    /// The polygon with the given vertices, or the first reason for which
    /// they are not accepted.
    pub fn new(points: Vec<Point>) -> (r: Result<SimplePolygon, ShapeError>)
        ensures
            match r {
                Ok(p) => polygon_defect(points@).is_none() && p.wf() && p.points@ == points@
                    && p.surrogate.is_none(),
                Err(e) => polygon_defect(points@) == Some(e),
            },
    {
        if !check_chain(&points) {
            return Err(ShapeError::InvalidOutline);
        }
        let area: i128 = compute_signed_double_area(&points);
        if area == 0 {
            return Err(ShapeError::ZeroArea);
        }
        let bbox: AARectangle = compute_bbox(&points);
        proof {
            let b = chain_bbox(points@);
            assert(is_bbox_of(points@, points@.len() as int, b));
            lemma_bbox_unique(points@, b, bbox);
        }
        proof {
            crate::geometry::arith::lemma_mul_bound(
                bbox.spec_width(),
                bbox.spec_height(),
                0x4000_0000,
                0x4000_0000,
            );
        }
        let limit: u64 = 2 * bbox.area();
        let abs_area: i128 = if area >= 0 {
            area
        } else {
            -area
        };
        if abs_area > limit as i128 {
            return Err(ShapeError::SelfIntersecting);
        }
        let c: (i128, i128) = compute_centroid(&points, area);
        if !(bbox.x_min as i128 <= c.0 && c.0 <= bbox.x_max as i128 && bbox.y_min as i128 <= c.1
            && c.1 <= bbox.y_max as i128) {
            return Err(ShapeError::SelfIntersecting);
        }
        let no_poles: Vec<Circle> = Vec::new();
        assert(no_poles@ =~= Seq::<Circle>::empty());
        match next_pole_of_chain(&points, &bbox, no_poles.as_slice()) {
            None => Err(ShapeError::Degenerate),
            Some(poi) => {
                Ok(
                    SimplePolygon {
                        points,
                        bbox,
                        area2: area as i64,
                        centroid: Point(c.0 as i64, c.1 as i64),
                        poi,
                        surrogate: None,
                    },
                )
            },
        }
    }

    /// The polygon whose vertices are the corners of the rectangle,
    /// counter-clockwise from the lower left.
    pub fn from_rectangle(rect: &AARectangle) -> (r: Result<SimplePolygon, ShapeError>)
        ensures
            match r {
                Ok(p) => p.wf() && p.points@ == rectangle_corners(*rect) && p.surrogate.is_none(),
                Err(e) => polygon_defect(rectangle_corners(*rect)) == Some(e),
            },
    {
        let mut points: Vec<Point> = Vec::new();
        points.push(Point(rect.x_min, rect.y_min));
        points.push(Point(rect.x_max, rect.y_min));
        points.push(Point(rect.x_max, rect.y_max));
        points.push(Point(rect.x_min, rect.y_max));
        assert(points@ =~= rectangle_corners(*rect));
        SimplePolygon::new(points)
    }

    pub fn number_of_points(&self) -> (n: usize)
        ensures
            n == self.points@.len(),
    {
        self.points.len()
    }

    pub fn get_point(&self, i: usize) -> (p: Point)
        requires
            i < self.points@.len(),
        ensures
            p == self.points@[i as int],
    {
        self.points[i]
    }

    /// The edge from the `i`-th vertex to the next.
    pub fn get_edge(&self, i: usize) -> (e: Edge)
        requires
            i < self.points@.len(),
        ensures
            e == edge_at(self.points@, i as int),
    {
        edge_of(&self.points, i)
    }

    pub fn bbox(&self) -> (b: AARectangle)
        ensures
            b == self.bbox,
    {
        self.bbox
    }

    pub fn centroid(&self) -> (c: Point)
        ensures
            c == self.centroid,
    {
        self.centroid
    }

    /// Twice the enclosed area.
    pub fn double_area(&self) -> (a: u64)
        requires
            self.wf(),
        ensures
            a == self@.double_area(),
            a > 0,
    {
        if self.area2 >= 0 {
            self.area2 as u64
        } else {
            (-(self.area2 as i128)) as u64
        }
    }

    /// Whether `p` lies inside the polygon: within the bounding box, and
    /// inside the outline by the parity of the crossings of its ray.
    pub open spec fn spec_collides_with(&self, p: Point) -> bool {
        self.bbox.spec_collides_with(p) && chain_contains(self.points@, p)
    }

    pub fn collides_with(&self, p: &Point) -> (r: bool)
        requires
            self.wf(),
        ensures
            r == self.spec_collides_with(*p),
    {
        if !self.bbox.collides_with(p) {
            false
        } else {
            compute_contains(&self.points, p)
        }
    }

    /// On which side of the outline `p` lies, and how far from the nearest
    /// edge, rounded as asked.
    pub fn distance_from_border(&self, p: &Point, rounding: Rounding) -> (r: (GeoPosition, i64))
        requires
            self.wf(),
            p.in_range(),
        ensures
            r.0 == chain_position(self.points@, *p),
            r.1 == chain_distance(self.points@, *p, rounding),
            0 <= r.1 <= 0x1_0000_0000,
    {
        let inside: bool = compute_contains(&self.points, p);
        let d: i64 = compute_distance(&self.points, p, rounding);
        if inside {
            (GeoPosition::Interior, d)
        } else {
            (GeoPosition::Exterior, d)
        }
    }

    /// Builds the disk surrogate as the options say.
    pub fn generate_surrogate(&mut self, config: SPSurrogateConfig)
        requires
            old(self).wf(),
            config.wf(),
        ensures
            final(self).wf(),
            final(self)@.points == old(self)@.points,
            final(self)@.bbox == old(self)@.bbox,
            final(self)@.area2 == old(self)@.area2,
            final(self)@.centroid == old(self)@.centroid,
            final(self)@.poi == old(self)@.poi,
            final(self)@.surrogate.is_some(),
            final(self)@.surrogate.unwrap().poles == seq![old(self)@.poi] + spec_additional_poles(
                old(self)@.points,
                old(self)@.bbox,
                old(self)@.double_area(),
                old(self)@.poi,
                config.max_poles,
                config.pole_coverage_goal as int,
            ),
            final(self)@.surrogate.unwrap().n_ff_poles == min_usize(
                config.n_ff_poles,
                final(self)@.surrogate.unwrap().poles.len() as usize,
            ),
    {
        let area: u64 = self.double_area();
        let s: SPSurrogate = SPSurrogate::for_chain(
            &self.points,
            &self.bbox,
            area,
            self.poi,
            config,
        );
        self.surrogate = Some(s);
    }

    /// A copy of the polygon.
    pub fn clone_polygon(&self) -> (r: SimplePolygon)
        ensures
            r@ == self@,
    {
        let mut points: Vec<Point> = Vec::new();
        let mut i: usize = 0;
        while i < self.points.len()
            invariant
                i <= self.points.len(),
                points@ == self.points@.subrange(0, i as int),
            decreases self.points.len() - i,
        {
            points.push(self.points[i]);
            assert(points@ =~= self.points@.subrange(0, i as int + 1));
            i += 1;
        }
        assert(points@ =~= self.points@);
        let surrogate: Option<SPSurrogate> = match &self.surrogate {
            Some(s) => Some(s.clone_surrogate()),
            None => None,
        };
        SimplePolygon {
            points,
            bbox: self.bbox,
            area2: self.area2,
            centroid: self.centroid,
            poi: self.poi,
            surrogate,
        }
    }

    /// The polygon moved so that its centre of mass lies at the origin, with
    /// the translation that moved it, or the first reason for which the moved
    /// vertices are not accepted.
    pub fn center_around_centroid(&self) -> (r: Result<(SimplePolygon, Transformation), ShapeError>)
        requires
            self.wf(),
        ensures
            match r {
                Ok((p, t)) => {
                    &&& t == centering_of(self.points@)
                    &&& t.wf()
                    &&& t.is_translation()
                    &&& polygon_defect(moved_points(self.points@, t)).is_none()
                    &&& p.wf()
                    &&& p.points@ == moved_points(self.points@, t)
                    &&& p.surrogate.is_none()
                },
                Err(e) => polygon_defect(moved_points(self.points@, centering_of(self.points@)))
                    == Some(e),
            },
    {
        let t: Transformation = Transformation {
            cos: crate::geometry::transformation::ROT_ONE,
            sin: 0,
            tx: -self.centroid.0,
            ty: -self.centroid.1,
        };
        match self.transform_clone(&t) {
            Ok(p) => Ok((p, t)),
            Err(e) => Err(e),
        }
    }

    /// The polygon moved by `t`, each vertex rounded to the lattice, or the
    /// first reason for which the moved vertices are not accepted. The copy
    /// has no surrogate.
    pub fn transform_clone(&self, t: &Transformation) -> (r: Result<SimplePolygon, ShapeError>)
        requires
            self.wf(),
            t.wf(),
        ensures
            match r {
                Ok(p) => polygon_defect(moved_points(self.points@, *t)).is_none() && p.wf()
                    && p.points@ == moved_points(self.points@, *t) && p.surrogate.is_none(),
                Err(e) => polygon_defect(moved_points(self.points@, *t)) == Some(e),
            },
    {
        let mut points: Vec<Point> = Vec::new();
        let mut i: usize = 0;
        while i < self.points.len()
            invariant
                i <= self.points.len(),
                self.wf(),
                t.wf(),
                points@ == moved_points(self.points@, *t).subrange(0, i as int),
            decreases self.points.len() - i,
        {
            let p: Point = self.points[i];
            assert(self.points@[i as int].is_vertex());
            let q: (i64, i64) = t.apply(&p);
            points.push(Point(q.0, q.1));
            assert(points@ =~= moved_points(self.points@, *t).subrange(0, i as int + 1));
            i += 1;
        }
        assert(points@ =~= moved_points(self.points@, *t));
        SimplePolygon::new(points)
    }
}

/// The translation that takes the centre of mass of the area enclosed by
/// the chain to the origin.
pub open spec fn centering_of(points: Seq<Point>) -> Transformation {
    Transformation {
        cos: crate::geometry::transformation::ROT_ONE,
        sin: 0,
        tx: (-chain_centroid_x(points)) as i64,
        ty: (-chain_centroid_y(points)) as i64,
    }
}

/// The corners of the rectangle, counter-clockwise from the lower left.
pub open spec fn rectangle_corners(rect: AARectangle) -> Seq<Point> {
    seq![
        Point(rect.x_min, rect.y_min),
        Point(rect.x_max, rect.y_min),
        Point(rect.x_max, rect.y_max),
        Point(rect.x_min, rect.y_max),
    ]
}

/// Where `t` takes the point, as a lattice point.
pub open spec fn moved_point(p: Point, t: Transformation) -> Point {
    Point(t.spec_apply(p).0 as i64, t.spec_apply(p).1 as i64)
}

/// Where `t` takes each of the points.
pub open spec fn moved_points(points: Seq<Point>, t: Transformation) -> Seq<Point> {
    Seq::new(points.len(), |i: int| moved_point(points[i], t))
}

/// The pole of inaccessibility of a polygon has a positive radius and lies
/// inside the polygon: its centre does, and, rounded down, the centre's
/// distance to every edge is at least the radius.
pub proof fn law_poi_is_inscribed(p: SimplePolygon)
    requires
        p.wf(),
    ensures
        p.poi.radius > 0,
        inscribed(p.points@, Seq::<Circle>::empty(), p.poi),
{
    assert(seq![p.poi][0] == p.poi);
}

/// Every pole of the surrogate of a polygon lies inside the polygon, and no
/// two poles share an interior point: their centres are at least the sum of
/// their radii apart.
pub proof fn law_poles_are_sound(p: SimplePolygon)
    requires
        p.wf(),
        p.surrogate.is_some(),
    ensures
        forall|i: int|
            0 <= i < p.surrogate.unwrap().poles@.len() ==> (
            #[trigger] p.surrogate.unwrap().poles@[i]).radius > 0 && inscribed(
                p.points@,
                Seq::<Circle>::empty(),
                p.surrogate.unwrap().poles@[i],
            ),
        forall|i: int, j: int|
            0 <= i < p.surrogate.unwrap().poles@.len() && 0 <= j
                < p.surrogate.unwrap().poles@.len() && i != j ==> disjoint_disks(
                #[trigger] p.surrogate.unwrap().poles@[i],
                #[trigger] p.surrogate.unwrap().poles@[j],
            ),
{
    let s = p@.surrogate.unwrap();
    assert(s.wf_for(p.points@));
    assert(s.poles == p.surrogate.unwrap().poles@);
}

} // verus!
