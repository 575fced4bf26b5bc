//! Turns instances and solutions as they are exchanged into the library's
//! own, and back.

use vstd::prelude::*;
use crate::entities::bin::{bin_sketches, Bin, BinError};
use crate::entities::instances::bin_packing::BPInstance;
use crate::entities::instances::instance::Instance;
use crate::entities::instances::strip_packing::SPInstance;
use crate::entities::item::Item;
use crate::entities::quality_zone::{InferiorQualityZone, N_QUALITIES};
use crate::geometry::aa_rectangle::AARectangle;
use crate::geometry::geo_enums::{AllowedRotation, AllowedRotationView};
use crate::geometry::point::Point;
use crate::geometry::simple_polygon::{
    centering_of,
    moved_points,
    polygon_defect,
    rectangle_corners,
    ShapeError,
    SimplePolygon,
};
use crate::geometry::transformation::{DTransformation, Rotation, Transformation, ROT_ONE};
use crate::io::json_instance::{
    JsonBin,
    JsonInstance,
    JsonItem,
    JsonQualityZone,
    JsonShape,
    JsonSimplePoly,
};
use crate::entities::layout::{placed_views, Layout, LayoutSnapshot, LayoutView};
use crate::entities::placed_item::{PlacedItem, PlacedItemUID, PlacedItemView};
use crate::entities::placing_option::PlacingOption;
use crate::entities::problems::bin_packing::BPProblem;
use crate::entities::problems::counting::{layout_views, snapshot_views};
use crate::entities::problems::problem::{
    LayoutIndex,
    PlaceResult,
    Problem,
    ProblemPrivate,
    Rejection,
};
use crate::entities::problems::strip_packing::{strip_defect, strip_problem_of, SPProblem};
use crate::entities::solution::Solution;
use crate::io::json_solution::{
    JsonContainer,
    JsonLayout,
    JsonLayoutStats,
    JsonPlacedItem,
    JsonSolution,
    JsonTransformation,
};
use crate::util::config::CDEConfig;

verus! {

/// Turns an instance as it is exchanged into an instance of the library.
#[derive(Clone, Copy, Debug, PartialEq, Eq, Structural)]
pub struct Parser {
    pub cde_config: CDEConfig,
    /// Whether each polygon is moved so that its centre of mass lies at the
    /// origin.
    pub center_polygons: bool,
}

/// Why an instance is not accepted.
#[derive(Clone, Copy, Debug, PartialEq, Eq, Structural)]
pub enum ParseError {
    /// The options of the collision detection engine cannot be used.
    InvalidConfig,
    /// Both bins and a strip are given.
    BothBinsAndStrip,
    /// Neither bins nor a strip are given.
    NeitherBinsNorStrip,
    /// An item or a bin has no shape.
    NoShape,
    /// A shape is given in a form that is not supported.
    UnsupportedShape,
    /// A shape is no polygon.
    InvalidShape(ShapeError),
    /// A quality is not below the number of qualities.
    QualityOutOfRange,
    /// The holes of a bin leave no area.
    NoArea,
    /// The demands are too many, or the strip's height is out of range.
    InvalidQuantities,
}

/// The vertices of a polygon as it is exchanged, without the last where it
/// repeats the first.
pub open spec fn open_points(raw: Seq<(i64, i64)>) -> Seq<Point> {
    let n = if raw.len() >= 1 && raw[0] == raw[raw.len() - 1] {
        raw.len() - 1
    } else {
        raw.len() as int
    };
    Seq::new(n as nat, |i: int| Point(raw[i].0, raw[i].1))
}

/// The polygon of a rectangle of the given measures with its lower left
/// corner at the origin, with the motion applied to it: none.
pub open spec fn rect_outcome(width: i64, height: i64) -> Result<
    (Seq<Point>, Transformation),
    ParseError,
> {
    let corners = rectangle_corners(
        AARectangle { x_min: 0, y_min: 0, x_max: width, y_max: height },
    );
    match polygon_defect(corners) {
        Some(e) => Err(ParseError::InvalidShape(e)),
        None => Ok((corners, Transformation::spec_empty())),
    }
}

/// The polygon of the vertices given, centred if asked, with the motion
/// applied to it.
pub open spec fn simple_poly_outcome(raw: Seq<(i64, i64)>, center: bool) -> Result<
    (Seq<Point>, Transformation),
    ParseError,
> {
    let pts = open_points(raw);
    match polygon_defect(pts) {
        Some(e) => Err(ParseError::InvalidShape(e)),
        None => if !center {
            Ok((pts, Transformation::spec_empty()))
        } else {
            let t = centering_of(pts);
            match polygon_defect(moved_points(pts, t)) {
                Some(e) => Err(ParseError::InvalidShape(e)),
                None => Ok((moved_points(pts, t), t)),
            }
        },
    }
}

/// The polygon of the vertices given, moved by `t`.
pub open spec fn moved_poly_outcome(raw: Seq<(i64, i64)>, t: Transformation) -> Result<
    Seq<Point>,
    ParseError,
> {
    let pts = open_points(raw);
    match polygon_defect(pts) {
        Some(e) => Err(ParseError::InvalidShape(e)),
        None => match polygon_defect(moved_points(pts, t)) {
            Some(e) => Err(ParseError::InvalidShape(e)),
            None => Ok(moved_points(pts, t)),
        },
    }
}

/// The shape of an item: a rectangle or a polygon without holes.
pub open spec fn item_shape_outcome(shape: Option<JsonShape>, center: bool) -> Result<
    (Seq<Point>, Transformation),
    ParseError,
> {
    match shape {
        None => Err(ParseError::NoShape),
        Some(JsonShape::Rectangle { width, height }) => rect_outcome(width, height),
        Some(JsonShape::SimplePolygon(sp)) => simple_poly_outcome(sp.0@, center),
        Some(_) => Err(ParseError::UnsupportedShape),
    }
}

/// The outline of a bin: a rectangle, a polygon, or the outline of a
/// polygon with holes.
pub open spec fn bin_shape_outcome(shape: Option<JsonShape>, center: bool) -> Result<
    (Seq<Point>, Transformation),
    ParseError,
> {
    match shape {
        None => Err(ParseError::NoShape),
        Some(JsonShape::Rectangle { width, height }) => rect_outcome(width, height),
        Some(JsonShape::SimplePolygon(sp)) => simple_poly_outcome(sp.0@, center),
        Some(JsonShape::Polygon(jp)) => simple_poly_outcome(jp.outer.0@, center),
        Some(JsonShape::MultiPolygon(_)) => Err(ParseError::UnsupportedShape),
    }
}

/// The holes given with the shape of a bin.
pub open spec fn bin_inner(shape: Option<JsonShape>) -> Seq<JsonSimplePoly> {
    match shape {
        Some(JsonShape::Polygon(jp)) => jp.inner@,
        _ => Seq::empty(),
    }
}

/// The shape of a zone, moved by `t`: a rectangle or a polygon without
/// holes.
pub open spec fn zone_outcome(shape: JsonShape, t: Transformation) -> Result<
    Seq<Point>,
    ParseError,
> {
    match shape {
        JsonShape::Rectangle { width, height } => {
            let corners = rectangle_corners(
                AARectangle { x_min: 0, y_min: 0, x_max: width, y_max: height },
            );
            match polygon_defect(corners) {
                Some(e) => Err(ParseError::InvalidShape(e)),
                None => match polygon_defect(moved_points(corners, t)) {
                    Some(e) => Err(ParseError::InvalidShape(e)),
                    None => Ok(moved_points(corners, t)),
                },
            }
        },
        JsonShape::SimplePolygon(sp) => moved_poly_outcome(sp.0@, t),
        _ => Err(ParseError::UnsupportedShape),
    }
}

/// The rotations under which an item may be placed: any where none are
/// given, none where none or only the rotation by nothing is listed, else
/// those listed.
pub open spec fn orientations_of(a: Option<Vec<Rotation>>) -> AllowedRotationView {
    match a {
        None => AllowedRotationView::Continuous,
        Some(v) => if v@.len() == 0 || (v@.len() == 1 && v@[0] == (Rotation {
            cos: ROT_ONE,
            sin: 0,
        })) {
            AllowedRotationView::NoRotation
        } else {
            AllowedRotationView::Discrete(v@)
        },
    }
}

/// A quantity as a count: the quantity itself, or the largest count where it
/// is larger.
pub open spec fn as_count(q: u64) -> usize {
    if q <= usize::MAX {
        q as usize
    } else {
        usize::MAX
    }
}

/// Why the item is not accepted, if it is not.
pub open spec fn item_error(json_item: JsonItem, center: bool) -> Option<ParseError> {
    if json_item.base_quality.is_some() && json_item.base_quality.unwrap() >= N_QUALITIES {
        Some(ParseError::QualityOutOfRange)
    } else {
        match item_shape_outcome(json_item.shape, center) {
            Err(e) => Some(e),
            Ok(_) => None,
        }
    }
}

/// The item is the item given, under the identifier `item_id`, with its
/// demand.
#[verifier::opaque]
pub open spec fn item_parsed(
    json_item: JsonItem,
    center: bool,
    item_id: usize,
    parsed: (Item, usize),
) -> bool {
    let item = parsed.0;
    &&& item.wf()
    &&& item.id == item_id
    &&& item_shape_outcome(json_item.shape, center) == Ok::<
        (Seq<Point>, Transformation),
        ParseError,
    >((item.shape.points@, item.centering_transform))
    &&& item.value == match json_item.value {
        Some(v) => v,
        None => 0,
    }
    &&& item.base_quality == json_item.base_quality
    &&& item.allowed_rotation@ == orientations_of(json_item.allowed_orientations)
    &&& parsed.1 == as_count(json_item.demand)
}

/// Why the first of the first `k` holes that is not accepted is not.
pub open spec fn first_hole_error(inner: Seq<JsonSimplePoly>, t: Transformation, k: nat) -> Option<
    ParseError,
>
    decreases k,
{
    if k == 0 {
        None
    } else {
        match first_hole_error(inner, t, (k - 1) as nat) {
            Some(e) => Some(e),
            None => match moved_poly_outcome(inner[k - 1].0@, t) {
                Err(e) => Some(e),
                Ok(_) => None,
            },
        }
    }
}

/// Why the first of the first `k` zones that is not accepted is not.
pub open spec fn first_zone_error(zones: Seq<JsonQualityZone>, t: Transformation, k: nat) -> Option<
    ParseError,
>
    decreases k,
{
    if k == 0 {
        None
    } else {
        match first_zone_error(zones, t, (k - 1) as nat) {
            Some(e) => Some(e),
            None => match zone_outcome(zones[k - 1].shape, t) {
                Err(e) => Some(e),
                Ok(_) => None,
            },
        }
    }
}

/// Whether each of the first `k` zones names a quality.
pub open spec fn qualities_ok(zones: Seq<JsonQualityZone>, k: int) -> bool {
    forall|j: int| 0 <= j < k ==> (#[trigger] zones[j]).quality < N_QUALITIES
}

/// The outlines of the zones of quality `q` among the first `k`, in order.
pub open spec fn zones_of_quality(
    zones: Seq<JsonQualityZone>,
    t: Transformation,
    q: int,
    k: nat,
) -> Seq<Seq<Point>>
    decreases k,
{
    if k == 0 {
        Seq::empty()
    } else {
        let before = zones_of_quality(zones, t, q, (k - 1) as nat);
        if zones[k - 1].quality == q {
            match zone_outcome(zones[k - 1].shape, t) {
                Ok(pts) => before.push(pts),
                Err(_) => before,
            }
        } else {
            before
        }
    }
}

/// The outlines of the polygons.
pub open spec fn outlines(shapes: Seq<SimplePolygon>) -> Seq<Seq<Point>> {
    Seq::new(shapes.len(), |i: int| shapes[i].points@)
}

/// Twice the area enclosed by the outline of an outcome.
pub open spec fn outcome_area(r: Result<Seq<Point>, ParseError>) -> int {
    match r {
        Ok(pts) => crate::geometry::simple_polygon::abs_int(
            crate::geometry::outline::signed_double_area(pts),
        ),
        Err(_) => 0,
    }
}

/// Twice the area of the first `k` holes together.
pub open spec fn hole_areas(inner: Seq<JsonSimplePoly>, t: Transformation, k: nat) -> int
    decreases k,
{
    if k == 0 {
        0
    } else {
        hole_areas(inner, t, (k - 1) as nat) + outcome_area(moved_poly_outcome(inner[k - 1].0@, t))
    }
}

/// Twice the area that the outline and the holes of the bin given leave.
pub open spec fn json_bin_area(json_bin: JsonBin, center: bool) -> int {
    match bin_shape_outcome(json_bin.shape, center) {
        Err(_) => 0,
        Ok((pts, t)) => crate::geometry::simple_polygon::abs_int(
            crate::geometry::outline::signed_double_area(pts),
        ) - hole_areas(bin_inner(json_bin.shape), t, bin_inner(json_bin.shape).len()),
    }
}

/// Why the bin is not accepted, if it is not: the first of a missing,
/// unsupported or invalid outline, a quality out of range, an invalid hole,
/// an invalid zone, and holes that leave no area.
#[verifier::opaque]
pub open spec fn bin_error(json_bin: JsonBin, center: bool) -> Option<ParseError> {
    match bin_shape_outcome(json_bin.shape, center) {
        Err(e) => Some(e),
        Ok((_, t)) => {
            let inner = bin_inner(json_bin.shape);
            if !qualities_ok(json_bin.zones@, json_bin.zones@.len() as int) {
                Some(ParseError::QualityOutOfRange)
            } else if first_hole_error(inner, t, inner.len()).is_some() {
                first_hole_error(inner, t, inner.len())
            } else if first_zone_error(json_bin.zones@, t, json_bin.zones@.len()).is_some() {
                first_zone_error(json_bin.zones@, t, json_bin.zones@.len())
            } else if json_bin_area(json_bin, center) <= 0 {
                Some(ParseError::NoArea)
            } else {
                None
            }
        },
    }
}

/// Why the outline, the holes or the zones of the bin given are not
/// accepted, if one of them is not.
pub open spec fn bin_parts_error(json_bin: JsonBin, center: bool) -> Option<ParseError> {
    match bin_shape_outcome(json_bin.shape, center) {
        Err(e) => Some(e),
        Ok((_, t)) => {
            let inner = bin_inner(json_bin.shape);
            if !qualities_ok(json_bin.zones@, json_bin.zones@.len() as int) {
                Some(ParseError::QualityOutOfRange)
            } else if first_hole_error(inner, t, inner.len()).is_some() {
                first_hole_error(inner, t, inner.len())
            } else {
                first_zone_error(json_bin.zones@, t, json_bin.zones@.len())
            }
        },
    }
}

/// The outline, the holes and the zones are those of the bin given.
pub open spec fn bin_parts_parsed(
    json_bin: JsonBin,
    center: bool,
    outer: SimplePolygon,
    t: Transformation,
    holes: Seq<SimplePolygon>,
    zones: Seq<InferiorQualityZone>,
) -> bool {
    let inner = bin_inner(json_bin.shape);
    &&& outer.wf()
    &&& t.wf()
    &&& bin_shape_outcome(json_bin.shape, center) == Ok::<
        (Seq<Point>, Transformation),
        ParseError,
    >((outer.points@, t))
    &&& holes.len() == inner.len()
    &&& forall|i: int|
        0 <= i < inner.len() ==> (#[trigger] holes[i]).wf() && moved_poly_outcome(inner[i].0@, t)
            == Ok::<Seq<Point>, ParseError>(holes[i].points@)
    &&& crate::entities::bin::total_double_area(holes, holes.len()) == hole_areas(
        inner,
        t,
        inner.len(),
    )
    &&& zones.len() == N_QUALITIES
    &&& forall|q: int|
        0 <= q < N_QUALITIES ==> (#[trigger] zones[q]).wf() && zones[q].quality == q && outlines(
            zones[q].zones@,
        ) == zones_of_quality(json_bin.zones@, t, q, json_bin.zones@.len())
}

/// The bin is the bin given, under the identifier `bin_id`, with its stock.
#[verifier::opaque]
pub open spec fn bin_parsed(json_bin: JsonBin, center: bool, bin_id: usize, parsed: (Bin, usize)) -> bool {
    let bin = parsed.0;
    let inner = bin_inner(json_bin.shape);
    &&& bin.wf()
    &&& bin.id == bin_id
    &&& bin_parts_parsed(
        json_bin,
        center,
        bin.outer,
        bin.pretransform,
        bin.holes@,
        bin.quality_zones@,
    )
    &&& bin.area2 == json_bin_area(json_bin, center)
    &&& bin.value == bin.area2 / 2
    &&& parsed.1 == match json_bin.stock {
        Some(s) => as_count(s),
        None => usize::MAX,
    }
}

/// The vertices of the polygon, without the last where it repeats the
/// first.
pub fn json_simple_poly_to_points(jsp: &JsonSimplePoly) -> (r: Vec<Point>)
    ensures
        r@ == open_points(jsp.0@),
{
    let len: usize = jsp.0.len();
    let n_vertices: usize = if len >= 1 && jsp.0[0].0 == jsp.0[len - 1].0 && jsp.0[0].1 == jsp.0[len
        - 1].1 {
        len - 1
    } else {
        len
    };
    let mut r: Vec<Point> = Vec::new();
    let mut i: usize = 0;
    while i < n_vertices
        invariant
            i <= n_vertices <= jsp.0@.len(),
            open_points(jsp.0@).len() == n_vertices,
            r@ == open_points(jsp.0@).subrange(0, i as int),
        decreases n_vertices - i,
    {
        r.push(Point(jsp.0[i].0, jsp.0[i].1));
        assert(r@ =~= open_points(jsp.0@).subrange(0, i as int + 1));
        i += 1;
    }
    assert(r@ =~= open_points(jsp.0@));
    r
}

/// The polygon of the vertices given, centred if asked, with the motion
/// applied to it.
pub fn convert_json_simple_poly(s_json_shape: &JsonSimplePoly, center_polygon: bool) -> (r: Result<
    (SimplePolygon, Transformation),
    ParseError,
>)
    ensures
        match r {
            Ok((p, t)) => {
                &&& simple_poly_outcome(s_json_shape.0@, center_polygon) == Ok::<
                    (Seq<Point>, Transformation),
                    ParseError,
                >((p.points@, t))
                &&& p.wf()
                &&& p.surrogate.is_none()
                &&& t.wf()
                &&& t.is_translation()
            },
            Err(e) => simple_poly_outcome(s_json_shape.0@, center_polygon) == Err::<
                (Seq<Point>, Transformation),
                ParseError,
            >(e),
        },
{
    let shape: SimplePolygon = match SimplePolygon::new(json_simple_poly_to_points(s_json_shape)) {
        Ok(p) => p,
        Err(e) => {
            return Err(ParseError::InvalidShape(e));
        },
    };
    if center_polygon {
        match shape.center_around_centroid() {
            Ok(r) => Ok(r),
            Err(e) => Err(ParseError::InvalidShape(e)),
        }
    } else {
        Ok((shape, Transformation::empty()))
    }
}

/// The polygon of a rectangle of the given measures with its lower left
/// corner at the origin.
pub fn convert_rectangle(width: i64, height: i64) -> (r: Result<
    (SimplePolygon, Transformation),
    ParseError,
>)
    ensures
        match r {
            Ok((p, t)) => {
                &&& rect_outcome(width, height) == Ok::<(Seq<Point>, Transformation), ParseError>(
                    (p.points@, t),
                )
                &&& p.wf()
                &&& p.surrogate.is_none()
                &&& t.wf()
                &&& t.is_translation()
            },
            Err(e) => rect_outcome(width, height) == Err::<
                (Seq<Point>, Transformation),
                ParseError,
            >(e),
        },
{
    let rect: AARectangle = AARectangle { x_min: 0, y_min: 0, x_max: width, y_max: height };
    match SimplePolygon::from_rectangle(&rect) {
        Ok(p) => Ok((p, Transformation::empty())),
        Err(e) => Err(ParseError::InvalidShape(e)),
    }
}

/// The polygon of the vertices given, moved by `t`.
pub fn convert_moved_poly(jsp: &JsonSimplePoly, t: &Transformation) -> (r: Result<
    SimplePolygon,
    ParseError,
>)
    requires
        t.wf(),
    ensures
        match r {
            Ok(p) => moved_poly_outcome(jsp.0@, *t) == Ok::<Seq<Point>, ParseError>(p.points@)
                && p.wf() && p.surrogate.is_none(),
            Err(e) => moved_poly_outcome(jsp.0@, *t) == Err::<Seq<Point>, ParseError>(e),
        },
{
    let shape: SimplePolygon = match SimplePolygon::new(json_simple_poly_to_points(jsp)) {
        Ok(p) => p,
        Err(e) => {
            return Err(ParseError::InvalidShape(e));
        },
    };
    match shape.transform_clone(t) {
        Ok(p) => Ok(p),
        Err(e) => Err(ParseError::InvalidShape(e)),
    }
}

/// The shape of a zone, moved by `t`.
pub fn convert_zone(shape: &JsonShape, t: &Transformation) -> (r: Result<SimplePolygon, ParseError>)
    requires
        t.wf(),
    ensures
        match r {
            Ok(p) => zone_outcome(*shape, *t) == Ok::<Seq<Point>, ParseError>(p.points@) && p.wf()
                && p.surrogate.is_none(),
            Err(e) => zone_outcome(*shape, *t) == Err::<Seq<Point>, ParseError>(e),
        },
{
    match shape {
        JsonShape::Rectangle { width, height } => {
            let rect: AARectangle = AARectangle {
                x_min: 0,
                y_min: 0,
                x_max: *width,
                y_max: *height,
            };
            let p: SimplePolygon = match SimplePolygon::from_rectangle(&rect) {
                Ok(p) => p,
                Err(e) => {
                    return Err(ParseError::InvalidShape(e));
                },
            };
            match p.transform_clone(t) {
                Ok(p) => Ok(p),
                Err(e) => Err(ParseError::InvalidShape(e)),
            }
        },
        JsonShape::SimplePolygon(sp) => convert_moved_poly(sp, t),
        JsonShape::Polygon(_) => Err(ParseError::UnsupportedShape),
        JsonShape::MultiPolygon(_) => Err(ParseError::UnsupportedShape),
    }
}

/// A quantity as a count.
pub fn count_of(q: u64) -> (r: usize)
    ensures
        r == as_count(q),
{
    if q <= usize::MAX as u64 {
        q as usize
    } else {
        usize::MAX
    }
}

/// The rotations under which an item may be placed.
pub fn convert_orientations(a: &Option<Vec<Rotation>>) -> (r: AllowedRotation)
    ensures
        r@ == orientations_of(*a),
{
    match a {
        None => AllowedRotation::Continuous,
        Some(v) => {
            if v.len() == 0 || (v.len() == 1 && v[0].cos == ROT_ONE && v[0].sin == 0) {
                AllowedRotation::NoRotation
            } else {
                let mut w: Vec<Rotation> = Vec::new();
                let mut i: usize = 0;
                while i < v.len()
                    invariant
                        i <= v.len(),
                        w@ == v@.subrange(0, i as int),
                    decreases v.len() - i,
                {
                    w.push(v[i]);
                    assert(w@ =~= v@.subrange(0, i as int + 1));
                    i += 1;
                }
                assert(w@ =~= v@);
                AllowedRotation::Discrete(w)
            }
        },
    }
}

impl Parser {
    /// The options can be used.
    pub open spec fn wf(&self) -> bool {
        self.cde_config.wf()
    }

    /// The parser with the given options.
    pub fn new(cde_config: CDEConfig, center_polygons: bool) -> (r: Parser)
        ensures
            r.cde_config == cde_config,
            r.center_polygons == center_polygons,
    {
        Parser { cde_config, center_polygons }
    }

    /// The item given, under the identifier `item_id`, with its demand.
    pub fn parse_item(&self, json_item: &JsonItem, item_id: usize) -> (r: Result<
        (Item, usize),
        ParseError,
    >)
        requires
            self.wf(),
        ensures
            match r {
                Ok(parsed) => item_error(*json_item, self.center_polygons).is_none() && item_parsed(
                    *json_item,
                    self.center_polygons,
                    item_id,
                    parsed,
                ),
                Err(e) => item_error(*json_item, self.center_polygons) == Some(e),
            },
    {
        reveal(item_parsed);
        match json_item.base_quality {
            Some(q) => {
                if q >= N_QUALITIES {
                    return Err(ParseError::QualityOutOfRange);
                }
            },
            None => {},
        }
        let converted: Result<(SimplePolygon, Transformation), ParseError> = match &json_item.shape {
            Some(JsonShape::Rectangle { width, height }) => convert_rectangle(*width, *height),
            Some(JsonShape::SimplePolygon(sp)) => convert_json_simple_poly(
                sp,
                self.center_polygons,
            ),
            Some(JsonShape::Polygon(_)) => Err(ParseError::UnsupportedShape),
            Some(JsonShape::MultiPolygon(_)) => Err(ParseError::UnsupportedShape),
            None => Err(ParseError::NoShape),
        };
        let (shape, centering_transf) = match converted {
            Ok(r) => r,
            Err(e) => {
                return Err(e);
            },
        };
        let item_value: u64 = match json_item.value {
            Some(v) => v,
            None => 0,
        };
        let allowed_orientations: AllowedRotation = convert_orientations(
            &json_item.allowed_orientations,
        );
        let item: Item = Item::new(
            item_id,
            shape,
            item_value,
            allowed_orientations,
            centering_transf,
            json_item.base_quality,
            self.cde_config.item_surrogate_config,
        );
        Ok((item, count_of(json_item.demand)))
    }

    /// The outline of the bin given, with the motion applied to it, its
    /// holes and its zones.
    #[verifier::rlimit(100)]
    #[verifier::spinoff_prover]
    pub fn parse_bin_parts(&self, json_bin: &JsonBin) -> (r: Result<
        (SimplePolygon, Transformation, Vec<SimplePolygon>, Vec<InferiorQualityZone>),
        ParseError,
    >)
        ensures
            match r {
                Ok((outer, t, holes, zones)) => bin_parts_error(
                    *json_bin,
                    self.center_polygons,
                ).is_none() && bin_parts_parsed(
                    *json_bin,
                    self.center_polygons,
                    outer,
                    t,
                    holes@,
                    zones@,
                ),
                Err(e) => bin_parts_error(*json_bin, self.center_polygons) == Some(e),
            },
    {
        let converted: Result<(SimplePolygon, Transformation), ParseError> = match &json_bin.shape {
            Some(JsonShape::Rectangle { width, height }) => convert_rectangle(*width, *height),
            Some(JsonShape::SimplePolygon(jsp)) => convert_json_simple_poly(
                jsp,
                self.center_polygons,
            ),
            Some(JsonShape::Polygon(jp)) => convert_json_simple_poly(
                &jp.outer,
                self.center_polygons,
            ),
            Some(JsonShape::MultiPolygon(_)) => Err(ParseError::UnsupportedShape),
            None => Err(ParseError::NoShape),
        };
        let (bin_outer, centering_transf) = match converted {
            Ok(r) => r,
            Err(e) => {
                return Err(e);
            },
        };
        if !check_qualities(&json_bin.zones) {
            return Err(ParseError::QualityOutOfRange);
        }
        let no_holes: Vec<JsonSimplePoly> = Vec::new();
        let inner: &Vec<JsonSimplePoly> = match &json_bin.shape {
            Some(JsonShape::Polygon(jp)) => &jp.inner,
            _ => &no_holes,
        };
        assert(inner@ =~= bin_inner(json_bin.shape));
        let bin_holes: Vec<SimplePolygon> = match convert_holes(inner, &centering_transf) {
            Ok(h) => h,
            Err(e) => {
                return Err(e);
            },
        };
        let quality_zones: Vec<InferiorQualityZone> = match convert_zones(
            &json_bin.zones,
            &centering_transf,
        ) {
            Ok(z) => z,
            Err(e) => {
                return Err(e);
            },
        };
        Ok((bin_outer, centering_transf, bin_holes, quality_zones))
    }

    /// The bin given, under the identifier `bin_id`, with its stock. The
    /// bin's value is its area.
    pub fn parse_bin(&self, json_bin: &JsonBin, bin_id: usize) -> (r: Result<
        (Bin, usize),
        ParseError,
    >)
        ensures
            match r {
                Ok(parsed) => bin_error(*json_bin, self.center_polygons).is_none() && bin_parsed(
                    *json_bin,
                    self.center_polygons,
                    bin_id,
                    parsed,
                ),
                Err(e) => bin_error(*json_bin, self.center_polygons) == Some(e),
            },
    {
        reveal(bin_parsed);
        reveal(bin_error);
        let (bin_outer, centering_transf, bin_holes, quality_zones) = match self.parse_bin_parts(
            json_bin,
        ) {
            Ok(parts) => parts,
            Err(e) => {
                return Err(e);
            },
        };
        let mut bin: Bin = match Bin::new(
            bin_id,
            bin_outer,
            0,
            centering_transf,
            bin_holes,
            quality_zones,
        ) {
            Ok(b) => b,
            Err(_) => {
                return Err(ParseError::NoArea);
            },
        };
        bin.value = bin.area2 / 2;
        let stock: usize = match json_bin.stock {
            Some(s) => count_of(s),
            None => usize::MAX,
        };
        Ok((bin, stock))
    }

    /// Why the first of the first `k` items that is not accepted is not.
    pub open spec fn first_item_error(&self, items: Seq<JsonItem>, k: nat) -> Option<ParseError>
        decreases k,
    {
        if k == 0 {
            None
        } else {
            match self.first_item_error(items, (k - 1) as nat) {
                Some(e) => Some(e),
                None => item_error(items[k - 1], self.center_polygons),
            }
        }
    }

    /// Why the first of the first `k` bins that is not accepted is not.
    pub open spec fn first_bin_error(&self, bins: Seq<JsonBin>, k: nat) -> Option<ParseError>
        decreases k,
    {
        if k == 0 {
            None
        } else {
            match self.first_bin_error(bins, (k - 1) as nat) {
                Some(e) => Some(e),
                None => bin_error(bins[k - 1], self.center_polygons),
            }
        }
    }

    /// The items given, each under its position as identifier.
    pub fn parse_items(&self, json_items: &Vec<JsonItem>) -> (r: Result<
        Vec<(Item, usize)>,
        ParseError,
    >)
        requires
            self.wf(),
        ensures
            match r {
                Ok(items) => {
                    &&& self.first_item_error(json_items@, json_items@.len()).is_none()
                    &&& items@.len() == json_items@.len()
                    &&& forall|j: int|
                        0 <= j < json_items@.len() ==> item_parsed(
                            #[trigger] json_items@[j],
                            self.center_polygons,
                            j as usize,
                            items@[j],
                        )
                    &&& forall|j: int|
                        0 <= j < items@.len() ==> (#[trigger] items@[j]).0.wf() && items@[j].0.id
                            == j
                    &&& crate::entities::instances::instance::total_qty(items@, items@.len())
                        == total_demand(json_items@, json_items@.len())
                },
                Err(e) => self.first_item_error(json_items@, json_items@.len()) == Some(e),
            },
    {
        let mut items: Vec<(Item, usize)> = Vec::new();
        let mut i: usize = 0;
        while i < json_items.len()
            invariant
                i <= json_items.len(),
                self.wf(),
                items@.len() == i,
                self.first_item_error(json_items@, i as nat).is_none(),
                forall|j: int|
                    0 <= j < i ==> item_parsed(
                        #[trigger] json_items@[j],
                        self.center_polygons,
                        j as usize,
                        items@[j],
                    ),
            decreases json_items.len() - i,
        {
            match self.parse_item(&json_items[i], i) {
                Ok(parsed) => {
                    items.push(parsed);
                },
                Err(e) => {
                    proof {
                        assert(self.first_item_error(json_items@, (i + 1) as nat) == Some(e));
                        self.lemma_item_error_stays(json_items@, (i + 1) as nat, json_items@.len());
                    }
                    return Err(e);
                },
            }
            i += 1;
        }
        proof {
            assert forall|j: int| 0 <= j < items@.len() implies (#[trigger] items@[j]).1
                == as_count(json_items@[j].demand) && items@[j].0.id == j && items@[j].0.wf() by {
                lemma_parsed_item(json_items@[j], self.center_polygons, j as usize, items@[j]);
            }
            lemma_total_demand(json_items@, items@, items@.len());
        }
        Ok(items)
    }

    /// Once an item is not accepted, looking at more items does not change
    /// why.
    pub proof fn lemma_item_error_stays(&self, items: Seq<JsonItem>, k: nat, m: nat)
        requires
            self.first_item_error(items, k).is_some(),
            k <= m,
        ensures
            self.first_item_error(items, m) == self.first_item_error(items, k),
        decreases m,
    {
        if k < m {
            self.lemma_item_error_stays(items, k, (m - 1) as nat);
        }
    }

    /// Once a bin is not accepted, looking at more bins does not change why.
    pub proof fn lemma_bin_error_stays(&self, bins: Seq<JsonBin>, k: nat, m: nat)
        requires
            self.first_bin_error(bins, k).is_some(),
            k <= m,
        ensures
            self.first_bin_error(bins, m) == self.first_bin_error(bins, k),
        decreases m,
    {
        if k < m {
            self.lemma_bin_error_stays(bins, k, (m - 1) as nat);
        }
    }

    /// The bins given, each under its position as identifier.
    pub fn parse_bins(&self, json_bins: &Vec<JsonBin>) -> (r: Result<Vec<(Bin, usize)>, ParseError>)
        ensures
            match r {
                Ok(bins) => {
                    &&& self.first_bin_error(json_bins@, json_bins@.len()).is_none()
                    &&& bins@.len() == json_bins@.len()
                    &&& forall|c: int|
                        0 <= c < json_bins@.len() ==> bin_parsed(
                            #[trigger] json_bins@[c],
                            self.center_polygons,
                            c as usize,
                            bins@[c],
                        )
                    &&& forall|c: int|
                        0 <= c < bins@.len() ==> (#[trigger] bins@[c]).0.wf() && bins@[c].0.id == c
                },
                Err(e) => self.first_bin_error(json_bins@, json_bins@.len()) == Some(e),
            },
    {
        let mut bins: Vec<(Bin, usize)> = Vec::new();
        let mut b: usize = 0;
        while b < json_bins.len()
            invariant
                b <= json_bins.len(),
                bins@.len() == b,
                self.first_bin_error(json_bins@, b as nat).is_none(),
                forall|c: int|
                    0 <= c < b ==> bin_parsed(
                        #[trigger] json_bins@[c],
                        self.center_polygons,
                        c as usize,
                        bins@[c],
                    ),
            decreases json_bins.len() - b,
        {
            match self.parse_bin(&json_bins[b], b) {
                Ok(parsed) => {
                    bins.push(parsed);
                },
                Err(e) => {
                    proof {
                        assert(self.first_bin_error(json_bins@, (b + 1) as nat) == Some(e));
                        self.lemma_bin_error_stays(json_bins@, (b + 1) as nat, json_bins@.len());
                    }
                    return Err(e);
                },
            }
            b += 1;
        }
        proof {
            assert forall|c: int| 0 <= c < bins@.len() implies (#[trigger] bins@[c]).0.wf()
                && bins@[c].0.id == c by {
                lemma_parsed_bin_wf(json_bins@[c], self.center_polygons, c as usize, bins@[c]);
            }
        }
        Ok(bins)
    }

    /// Why the instance is not accepted, if an option, an item, a bin or
    /// the choice of containers is the reason.
    pub open spec fn instance_error(&self, json_instance: JsonInstance) -> Option<ParseError> {
        let items = json_instance.items@;
        if !self.wf() {
            Some(ParseError::InvalidConfig)
        } else if self.first_item_error(items, items.len()).is_some() {
            self.first_item_error(items, items.len())
        } else {
            match (json_instance.bins, json_instance.strip) {
                (Some(bins), None) => self.first_bin_error(bins@, bins@.len()),
                (None, Some(_)) => None,
                (Some(_), Some(_)) => Some(ParseError::BothBinsAndStrip),
                (None, None) => Some(ParseError::NeitherBinsNorStrip),
            }
        }
    }

    /// Whether the quantities of the instance given are out of range: more
    /// than `MAX_TOTAL_QTY` items are demanded, or the strip's height is not
    /// above zero and within `VERTEX_MAX`.
    pub open spec fn quantities_invalid(json_instance: JsonInstance) -> bool {
        ||| total_demand(json_instance.items@, json_instance.items@.len())
            > crate::entities::instances::instance::MAX_TOTAL_QTY
        ||| json_instance.strip.is_some() && !(0 < json_instance.strip.unwrap().height
            <= crate::geometry::point::VERTEX_MAX)
    }

    /// The instance is the one that the exchanged instance describes: item
    /// by item, and bin by bin or by the height of its strip.
    pub open spec fn instance_parsed(&self, json_instance: JsonInstance, instance: Instance) -> bool {
        &&& instance.wf()
        &&& instance.spec_items().len() == json_instance.items@.len()
        &&& forall|i: int|
            0 <= i < json_instance.items@.len() ==> item_parsed(
                #[trigger] json_instance.items@[i],
                self.center_polygons,
                i as usize,
                instance.spec_items()[i],
            )
        &&& match instance {
            Instance::BP(bp) => {
                &&& json_instance.bins.is_some()
                &&& json_instance.strip.is_none()
                &&& bp.bins@.len() == json_instance.bins.unwrap()@.len()
                &&& forall|b: int|
                    0 <= b < bp.bins@.len() ==> bin_parsed(
                        #[trigger] json_instance.bins.unwrap()@[b],
                        self.center_polygons,
                        b as usize,
                        bp.bins@[b],
                    )
            },
            Instance::SP(sp) => {
                &&& json_instance.bins.is_none()
                &&& json_instance.strip.is_some()
                &&& sp.strip_height == json_instance.strip.unwrap().height
            },
        }
    }

    /// Why no instance is made of the exchanged instance, if none is: for
    /// the first fault of an option, an item, a bin or the choice of
    /// containers, else for its quantities.
    pub open spec fn parse_error(&self, json_instance: JsonInstance) -> Option<ParseError> {
        if self.instance_error(json_instance).is_some() {
            self.instance_error(json_instance)
        } else if Self::quantities_invalid(json_instance) {
            Some(ParseError::InvalidQuantities)
        } else {
            None
        }
    }

    /// The instance given. Its items and bins carry their positions as
    /// identifiers.
    pub fn parse(&self, json_instance: &JsonInstance) -> (r: Result<Instance, ParseError>)
        ensures
            match r {
                Ok(instance) => self.parse_error(*json_instance).is_none() && self.instance_parsed(
                    *json_instance,
                    instance,
                ),
                Err(e) => self.parse_error(*json_instance) == Some(e),
            },
    {
        if !self.cde_config.check() {
            return Err(ParseError::InvalidConfig);
        }
        let items: Vec<(Item, usize)> = match self.parse_items(&json_instance.items) {
            Ok(items) => items,
            Err(e) => {
                return Err(e);
            },
        };

        match (&json_instance.bins, &json_instance.strip) {
            (Some(json_bins), None) => {
                let bins: Vec<(Bin, usize)> = match self.parse_bins(json_bins) {
                    Ok(bins) => bins,
                    Err(e) => {
                        return Err(e);
                    },
                };
                match BPInstance::new(items, bins) {
                    Some(bp) => Ok(Instance::BP(bp)),
                    None => Err(ParseError::InvalidQuantities),
                }
            },
            (None, Some(json_strip)) => match SPInstance::new(items, json_strip.height) {
                Some(sp) => Ok(Instance::SP(sp)),
                None => Err(ParseError::InvalidQuantities),
            },
            (Some(_), Some(_)) => Err(ParseError::BothBinsAndStrip),
            (None, None) => Err(ParseError::NeitherBinsNorStrip),
        }
    }
}

/// The demands of the first `k` items given together.
pub open spec fn total_demand(items: Seq<JsonItem>, k: nat) -> int
    decreases k,
{
    if k == 0 {
        0
    } else {
        total_demand(items, (k - 1) as nat) + as_count(items[k - 1].demand)
    }
}

/// The demands of the items parsed add up as those of the items given.
pub proof fn lemma_total_demand(json_items: Seq<JsonItem>, items: Seq<(Item, usize)>, k: nat)
    requires
        k <= items.len(),
        items.len() == json_items.len(),
        forall|j: int| 0 <= j < items.len() ==> (#[trigger] items[j]).1 == as_count(json_items[j].demand),
    ensures
        crate::entities::instances::instance::total_qty(items, k) == total_demand(json_items, k),
    decreases k,
{
    if k > 0 {
        lemma_total_demand(json_items, items, (k - 1) as nat);
    }
}

/// An item that was parsed is an item, with the identifier asked and the
/// demand given.
pub proof fn lemma_parsed_item(json_item: JsonItem, center: bool, item_id: usize, parsed: (Item, usize))
    requires
        item_parsed(json_item, center, item_id, parsed),
    ensures
        parsed.0.wf(),
        parsed.0.id == item_id,
        parsed.1 == as_count(json_item.demand),
{
    reveal(item_parsed);
}

/// A bin that was parsed is a bin.
pub proof fn lemma_parsed_bin_wf(json_bin: JsonBin, center: bool, bin_id: usize, parsed: (Bin, usize))
    requires
        bin_parsed(json_bin, center, bin_id, parsed),
    ensures
        parsed.0.wf(),
        parsed.0.id == bin_id,
{
    reveal(bin_parsed);
}

/// Tells whether every zone names a quality.
pub fn check_qualities(zones: &Vec<JsonQualityZone>) -> (r: bool)
    ensures
        r == qualities_ok(zones@, zones@.len() as int),
{
    let mut j: usize = 0;
    while j < zones.len()
        invariant
            j <= zones.len(),
            qualities_ok(zones@, j as int),
        decreases zones.len() - j,
    {
        if zones[j].quality >= N_QUALITIES {
            return false;
        }
        j += 1;
    }
    true
}

/// The holes given, each moved by `t`.
pub fn convert_holes(inner: &Vec<JsonSimplePoly>, t: &Transformation) -> (r: Result<
    Vec<SimplePolygon>,
    ParseError,
>)
    requires
        t.wf(),
    ensures
        match r {
            Ok(holes) => {
                &&& first_hole_error(inner@, *t, inner@.len()).is_none()
                &&& holes@.len() == inner@.len()
                &&& forall|i: int|
                    0 <= i < inner@.len() ==> (#[trigger] holes@[i]).wf() && moved_poly_outcome(
                        inner@[i].0@,
                        *t,
                    ) == Ok::<Seq<Point>, ParseError>(holes@[i].points@)
                &&& crate::entities::bin::total_double_area(holes@, holes@.len()) == hole_areas(
                    inner@,
                    *t,
                    inner@.len(),
                )
            },
            Err(e) => first_hole_error(inner@, *t, inner@.len()) == Some(e),
        },
{
    let mut holes: Vec<SimplePolygon> = Vec::new();
    let mut i: usize = 0;
    while i < inner.len()
        invariant
            i <= inner.len(),
            t.wf(),
            holes@.len() == i,
            first_hole_error(inner@, *t, i as nat).is_none(),
            forall|j: int|
                0 <= j < i ==> (#[trigger] holes@[j]).wf() && moved_poly_outcome(inner@[j].0@, *t)
                    == Ok::<Seq<Point>, ParseError>(holes@[j].points@),
            crate::entities::bin::total_double_area(holes@, i as nat) == hole_areas(
                inner@,
                *t,
                i as nat,
            ),
        decreases inner.len() - i,
    {
        match convert_moved_poly(&inner[i], t) {
            Ok(p) => {
                let ghost before = holes@;
                holes.push(p);
                proof {
                    crate::entities::bin::lemma_same_total_area(before, holes@.drop_last(), i as nat);
                    lemma_area_prefix(holes@, i as nat);
                }
            },
            Err(e) => {
                proof {
                    assert(first_hole_error(inner@, *t, (i + 1) as nat) == Some(e));
                    lemma_hole_error_stays(inner@, *t, (i + 1) as nat, inner@.len());
                }
                return Err(e);
            },
        }
        i += 1;
    }
    Ok(holes)
}

/// The area of the first `k` polygons does not depend on those after them.
pub proof fn lemma_area_prefix(shapes: Seq<SimplePolygon>, k: nat)
    requires
        k < shapes.len(),
    ensures
        crate::entities::bin::total_double_area(shapes, k)
            == crate::entities::bin::total_double_area(shapes.drop_last(), k),
    decreases k,
{
    if k > 0 {
        lemma_area_prefix(shapes, (k - 1) as nat);
    }
}

/// Once a hole is not accepted, looking at more holes does not change why.
pub proof fn lemma_hole_error_stays(inner: Seq<JsonSimplePoly>, t: Transformation, k: nat, m: nat)
    requires
        first_hole_error(inner, t, k).is_some(),
        k <= m,
    ensures
        first_hole_error(inner, t, m) == first_hole_error(inner, t, k),
    decreases m,
{
    if k < m {
        lemma_hole_error_stays(inner, t, k, (m - 1) as nat);
    }
}

/// Once a zone is not accepted, looking at more zones does not change why.
pub proof fn lemma_zone_error_stays(zones: Seq<JsonQualityZone>, t: Transformation, k: nat, m: nat)
    requires
        first_zone_error(zones, t, k).is_some(),
        k <= m,
    ensures
        first_zone_error(zones, t, m) == first_zone_error(zones, t, k),
    decreases m,
{
    if k < m {
        lemma_zone_error_stays(zones, t, k, (m - 1) as nat);
    }
}

/// The zones given, each moved by `t`, sorted into one list for each
/// quality.
pub fn convert_zones(zones: &Vec<JsonQualityZone>, t: &Transformation) -> (r: Result<
    Vec<InferiorQualityZone>,
    ParseError,
>)
    requires
        t.wf(),
        qualities_ok(zones@, zones@.len() as int),
    ensures
        match r {
            Ok(lists) => {
                &&& first_zone_error(zones@, *t, zones@.len()).is_none()
                &&& lists@.len() == N_QUALITIES
                &&& forall|q: int|
                    0 <= q < N_QUALITIES ==> {
                        &&& (#[trigger] lists@[q]).wf()
                        &&& lists@[q].quality == q
                        &&& outlines(lists@[q].zones@) == zones_of_quality(
                            zones@,
                            *t,
                            q,
                            zones@.len(),
                        )
                    }
            },
            Err(e) => first_zone_error(zones@, *t, zones@.len()) == Some(e),
        },
{
    let mut lists: Vec<InferiorQualityZone> = Vec::new();
    let mut q: usize = 0;
    while q < N_QUALITIES
        invariant
            q <= N_QUALITIES,
            lists@.len() == q,
            forall|p: int|
                0 <= p < q ==> {
                    &&& (#[trigger] lists@[p]).wf()
                    &&& lists@[p].quality == p
                    &&& lists@[p].zones@.len() == 0
                },
        decreases N_QUALITIES - q,
    {
        lists.push(InferiorQualityZone { quality: q, zones: Vec::new() });
        q += 1;
    }
    let mut j: usize = 0;
    proof {
        assert forall|p: int| 0 <= p < N_QUALITIES implies outlines(
            (#[trigger] lists@[p]).zones@,
        ) == zones_of_quality(zones@, *t, p, 0) by {
            assert(outlines(lists@[p].zones@) =~= Seq::<Seq<Point>>::empty());
        }
    }
    while j < zones.len()
        invariant
            j <= zones.len(),
            t.wf(),
            qualities_ok(zones@, zones@.len() as int),
            first_zone_error(zones@, *t, j as nat).is_none(),
            lists@.len() == N_QUALITIES,
            forall|p: int|
                0 <= p < N_QUALITIES ==> {
                    &&& (#[trigger] lists@[p]).wf()
                    &&& lists@[p].quality == p
                    &&& outlines(lists@[p].zones@) == zones_of_quality(zones@, *t, p, j as nat)
                },
        decreases zones.len() - j,
    {
        let zone: &JsonQualityZone = &zones[j];
        assert(zones@[j as int].quality < N_QUALITIES);
        match convert_zone(&zone.shape, t) {
            Err(e) => {
                proof {
                    assert(first_zone_error(zones@, *t, (j + 1) as nat) == Some(e));
                    lemma_zone_error_stays(zones@, *t, (j + 1) as nat, zones@.len());
                }
                return Err(e);
            },
            Ok(p) => {
                let ghost before = lists@;
                let ghost pts = p.points@;
                let quality: usize = zone.quality;
                lists[quality].zones.push(p);
                proof {
                    assert forall|c: int| 0 <= c < N_QUALITIES implies {
                        &&& (#[trigger] lists@[c]).wf()
                        &&& lists@[c].quality == c
                        &&& outlines(lists@[c].zones@) == zones_of_quality(
                            zones@,
                            *t,
                            c,
                            (j + 1) as nat,
                        )
                    } by {
                        if c == quality {
                            assert(before[c].wf());
                            assert(outlines(lists@[c].zones@) =~= outlines(before[c].zones@).push(
                                pts,
                            ));
                            assert forall|i: int|
                                0 <= i < lists@[c].zones@.len() implies (
                            #[trigger] lists@[c].zones@[i]).wf() by {
                                if i < before[c].zones@.len() {
                                    assert(lists@[c].zones@[i] == before[c].zones@[i]);
                                }
                            }
                        } else {
                            assert(lists@[c] == before[c]);
                        }
                    }
                }
            },
        }
        j += 1;
    }
    Ok(lists)
}

/// The motion that takes an item's shape, as the instance gives it, to its
/// place in the container, as the instance gives it: the item's own motion,
/// then the motion of the placement, then the container's own motion
/// undone. Nothing where a step is out of range.
pub open spec fn spec_internal_to_absolute(
    placed_item_transf: DTransformation,
    item_pretransf: Transformation,
    bin_pretransf: Transformation,
) -> Option<Transformation> {
    if !placed_item_transf.spec_compose().wf() {
        None
    } else {
        match Transformation::spec_empty().spec_transform(item_pretransf) {
            None => None,
            Some(t1) => match t1.spec_transform(placed_item_transf.spec_compose()) {
                None => None,
                Some(t2) => match bin_pretransf.spec_inverse() {
                    None => None,
                    Some(inv) => t2.spec_transform(inv),
                },
            },
        }
    }
}

/// The motion of a placement, from the motion that takes the item's shape,
/// as the instance gives it, to its place in the container, as the instance
/// gives it: the item's own motion undone, then the motion given, then the
/// container's own motion. Nothing where a step is out of range.
pub open spec fn spec_absolute_to_internal(
    abs_transf: DTransformation,
    item_pretransf: Transformation,
    bin_pretransf: Transformation,
) -> Option<Transformation> {
    if !abs_transf.spec_compose().wf() {
        None
    } else {
        match item_pretransf.spec_inverse() {
            None => None,
            Some(inv) => match Transformation::spec_empty().spec_transform(inv) {
                None => None,
                Some(t1) => match t1.spec_transform(abs_transf.spec_compose()) {
                    None => None,
                    Some(t2) => t2.spec_transform(bin_pretransf),
                },
            },
        }
    }
}

/// The motion that is exchanged for the motion of a placement.
pub fn internal_to_absolute_transform(
    placed_item_transf: &DTransformation,
    item_pretransf: &Transformation,
    bin_pretransf: &Transformation,
) -> (r: Option<Transformation>)
    requires
        item_pretransf.wf(),
        bin_pretransf.wf(),
    ensures
        r == spec_internal_to_absolute(*placed_item_transf, *item_pretransf, *bin_pretransf),
        r.is_some() ==> r.unwrap().wf(),
{
    let t1: Transformation = match Transformation::empty().transform(item_pretransf) {
        Some(t) => t,
        None => {
            return None;
        },
    };
    let t2: Transformation = match t1.transform_from_decomposed(placed_item_transf) {
        Some(t) => t,
        None => {
            return None;
        },
    };
    match bin_pretransf.inverse() {
        Some(inv) => t2.transform(&inv),
        None => None,
    }
}

/// The motion of a placement for the motion that is exchanged.
pub fn absolute_to_internal_transform(
    abs_transf: &DTransformation,
    item_pretransf: &Transformation,
    bin_pretransf: &Transformation,
) -> (r: Option<Transformation>)
    requires
        item_pretransf.wf(),
        bin_pretransf.wf(),
    ensures
        r == spec_absolute_to_internal(*abs_transf, *item_pretransf, *bin_pretransf),
        r.is_some() ==> r.unwrap().wf(),
{
    let inv: Transformation = match item_pretransf.inverse() {
        Some(t) => t,
        None => {
            return None;
        },
    };
    let t1: Transformation = match Transformation::empty().transform(&inv) {
        Some(t) => t,
        None => {
            return None;
        },
    };
    match t1.transform_from_decomposed(abs_transf) {
        Some(t2) => t2.transform(bin_pretransf),
        None => None,
    }
}

/// Going from the motion of a placement to the motion that is exchanged and
/// back gives the motion of the placement, exactly, where the own motions
/// of the item and of the container are translations, as those that centre a
/// shape are, and every step is in range.
pub proof fn law_transform_round_trip(
    placement: DTransformation,
    item_pretransf: Transformation,
    bin_pretransf: Transformation,
)
    requires
        item_pretransf.wf(),
        bin_pretransf.wf(),
        item_pretransf.is_translation(),
        bin_pretransf.is_translation(),
        spec_internal_to_absolute(placement, item_pretransf, bin_pretransf).is_some(),
        spec_absolute_to_internal(
            spec_internal_to_absolute(
                placement,
                item_pretransf,
                bin_pretransf,
            ).unwrap().spec_decompose(),
            item_pretransf,
            bin_pretransf,
        ).is_some(),
    ensures
        spec_absolute_to_internal(
            spec_internal_to_absolute(
                placement,
                item_pretransf,
                bin_pretransf,
            ).unwrap().spec_decompose(),
            item_pretransf,
            bin_pretransf,
        ) == Some(placement.spec_compose()),
{
    let empty = Transformation::spec_empty();
    let t = placement.spec_compose();
    crate::geometry::transformation::lemma_translation_algebra(item_pretransf, empty);
    crate::geometry::transformation::lemma_translation_algebra(item_pretransf, t);
    crate::geometry::transformation::lemma_translation_algebra(bin_pretransf, t);
    let s1 = empty.spec_transform(item_pretransf).unwrap();
    assert(s1 == item_pretransf);
    let s2 = s1.spec_transform(t).unwrap();
    let inv_bin = bin_pretransf.spec_inverse().unwrap();
    assert(inv_bin.is_translation());
    crate::geometry::transformation::lemma_translation_algebra(inv_bin, s2);
    let a = s2.spec_transform(inv_bin).unwrap();
    assert(a.spec_decompose().spec_compose() == a);
    let inv_item = item_pretransf.spec_inverse().unwrap();
    assert(inv_item.is_translation());
    crate::geometry::transformation::lemma_translation_algebra(inv_item, empty);
    let r1 = empty.spec_transform(inv_item).unwrap();
    assert(r1 == inv_item);
    crate::geometry::transformation::lemma_translation_algebra(inv_item, a);
    crate::geometry::transformation::lemma_rotation_odd(
        a.cos as int,
        a.sin as int,
        item_pretransf.tx as int,
        item_pretransf.ty as int,
    );
    let r2 = r1.spec_transform(a).unwrap();
    crate::geometry::transformation::lemma_translation_algebra(bin_pretransf, r2);
}

/// Why no solution was built from the layouts given.
#[derive(Clone, Copy, Debug, PartialEq, Eq, Structural)]
pub enum BuildError {
    /// A strip packing solution has one layout.
    NotOneLayout,
    /// A layout of bins names a strip, or a layout of a strip names a bin.
    WrongContainer,
    /// A layout names no bin of the instance.
    UnknownBin,
    /// A layout of bins holds no item.
    EmptyLayout,
    /// A placed item names no item of the instance.
    UnknownItem,
    /// A motion is out of range.
    OutOfRange,
    /// The strip is no bin.
    Strip(BinError),
    /// A placement was rejected.
    Rejected(Rejection),
}

/// The placed item is the one that the exchanged item describes: a copy of
/// the item named, moved by the motion of the placement that the exchanged
/// motion stands for.
pub open spec fn placed_from_json(
    placed: PlacedItemView,
    json_item: JsonPlacedItem,
    items: Seq<(Item, usize)>,
    bin_pretransf: Transformation,
) -> bool {
    &&& json_item.index < items.len()
    &&& placed.item_id == json_item.index
    &&& spec_absolute_to_internal(
        DTransformation {
            rotation: json_item.transformation.rotation,
            translation: json_item.transformation.translation,
        },
        items[json_item.index as int].0.centering_transform,
        bin_pretransf,
    ) == Some(placed.d_transf.spec_compose())
}

/// The layout holds the items that the exchanged layout describes, in
/// order.
pub open spec fn layout_from_json(
    layout: LayoutView,
    json_items: Seq<JsonPlacedItem>,
    k: int,
    items: Seq<(Item, usize)>,
    bin_pretransf: Transformation,
) -> bool {
    &&& layout.placed.len() == k
    &&& forall|j: int|
        0 <= j < k ==> placed_from_json(
            #[trigger] layout.placed[j],
            json_items[j],
            items,
            bin_pretransf,
        )
}

/// The placing option for an exchanged item in the given layout, for a
/// container with the given own motion, or why there is none: the item is
/// unknown, or its motion is out of range.
pub open spec fn spec_option_for(
    json_item: JsonPlacedItem,
    layout_index: LayoutIndex,
    items: Seq<(Item, usize)>,
    bin_pretransf: Transformation,
) -> Result<PlacingOption, BuildError> {
    if json_item.index >= items.len() {
        Err(BuildError::UnknownItem)
    } else {
        match spec_absolute_to_internal(
            DTransformation {
                rotation: json_item.transformation.rotation,
                translation: json_item.transformation.translation,
            },
            items[json_item.index as int].0.centering_transform,
            bin_pretransf,
        ) {
            None => Err(BuildError::OutOfRange),
            Some(t) => Ok(
                PlacingOption {
                    layout_index,
                    item_id: json_item.index,
                    transform: t,
                    d_transform: t.spec_decompose(),
                },
            ),
        }
    }
}

/// The placing option for an exchanged item in the given layout, for a
/// container with the given own motion.
pub fn option_for_json_item(
    json_item: &JsonPlacedItem,
    layout_index: LayoutIndex,
    items: &Vec<(Item, usize)>,
    bin_pretransf: &Transformation,
) -> (r: Result<PlacingOption, BuildError>)
    requires
        crate::entities::instances::instance::items_ok(items@),
        bin_pretransf.wf(),
    ensures
        r == spec_option_for(*json_item, layout_index, items@, *bin_pretransf),
        r.is_ok() ==> r.unwrap().wf(),
{
    if json_item.index >= items.len() {
        return Err(BuildError::UnknownItem);
    }
    let item: &Item = &items[json_item.index].0;
    assert(items@[json_item.index as int].0.wf());
    let abs_transform: DTransformation = DTransformation {
        rotation: json_item.transformation.rotation,
        translation: json_item.transformation.translation,
    };
    match absolute_to_internal_transform(&abs_transform, &item.centering_transform, bin_pretransf) {
        None => Err(BuildError::OutOfRange),
        Some(transform) => Ok(PlacingOption::new(layout_index, json_item.index, transform)),
    }
}

/// What placing an exchanged item comes to: the identifier given where it is
/// placed, else why it is not.
pub open spec fn placing_outcome(
    option: Result<PlacingOption, BuildError>,
    rejection: spec_fn(PlacingOption) -> Option<Rejection>,
    r: Result<PlacedItemUID, BuildError>,
) -> bool {
    match option {
        Err(e) => r == Err::<PlacedItemUID, BuildError>(e),
        Ok(opt) => match rejection(opt) {
            Some(x) => r == Err::<PlacedItemUID, BuildError>(BuildError::Rejected(x)),
            None => r.is_ok(),
        },
    }
}

/// Builds the solution that the exchanged layout of a strip describes, made
/// at `time_stamp`: the items are placed one by one, in the order given,
/// into a strip of the width given.
pub fn build_strip_packing_solution(
    instance: &SPInstance,
    json_layout: &JsonLayout,
    cde_config: CDEConfig,
    time_stamp: u64,
) -> (r: Result<Solution, BuildError>)
    requires
        instance.wf(),
        cde_config.wf(),
    ensures
        match r {
            Ok(s) => {
                &&& s.wf()
                &&& s.time_stamp == time_stamp
                &&& s.id == 1
                &&& strip_built(s, *json_layout, *instance)
            },
            Err(e) => strip_error_fits(e, *json_layout, *instance, cde_config),
        },
        strip_structure_error(*json_layout, instance.strip_height).is_some() ==> r == Err::<
            Solution,
            BuildError,
        >(strip_structure_error(*json_layout, instance.strip_height).unwrap()),
{
    let width: i64 = match json_layout.container {
        JsonContainer::Bin { .. } => {
            return Err(BuildError::WrongContainer);
        },
        JsonContainer::Strip { width, height: _ } => width,
    };
    let mut problem: SPProblem = match SPProblem::new(instance.clone_instance(), width, cde_config) {
        Ok(p) => p,
        Err(e) => {
            return Err(BuildError::Strip(e));
        },
    };
    let ghost catalogue = problem.instance;
    match fill_strip(&mut problem, &json_layout.placed_items) {
        Ok(_) => {},
        Err(e) => {
            proof {
                assert(strip_problem_of(problem, *instance, width, cde_config));
                assert(strip_stopped(problem, json_layout.placed_items@, e));
            }
            return Err(e);
        },
    }
    proof {
        let layout = problem.layouts@[0]@;
        assert forall|j: int| 0 <= j < json_layout.placed_items@.len() implies placed_from_json(
            #[trigger] layout.placed[j],
            json_layout.placed_items@[j],
            instance.items@,
            Transformation::spec_empty(),
        ) by {
            let json_item = json_layout.placed_items@[j];
            assert(placed_from_json(
                layout.placed[j],
                json_item,
                catalogue.items@,
                Transformation::spec_empty(),
            ));
            assert(catalogue.items@[json_item.index as int].0@
                == instance.items@[json_item.index as int].0@);
        }
    }
    let ghost views = layout_views(problem.layouts@);
    let s: Solution = problem.create_solution(&None, time_stamp);
    proof {
        assert(snapshot_views(s.layout_snapshots@) == layout_views(problem.layouts@));
        assert(snapshot_views(s.layout_snapshots@)[0] == s.layout_snapshots@[0]@);
        assert(layout_views(problem.layouts@)[0] == problem.layouts@[0]@);
        assert(layout_views(problem.layouts@) == views);
    }
    Ok(s)
}

/// Why the exchanged layout of a strip cannot even be begun, if it cannot:
/// it names a bin, or a strip that is no bin.
pub open spec fn strip_structure_error(json_layout: JsonLayout, strip_height: i64) -> Option<
    BuildError,
> {
    match json_layout.container {
        JsonContainer::Bin { .. } => Some(BuildError::WrongContainer),
        JsonContainer::Strip { width, .. } => match strip_defect(width, strip_height) {
            Some(e) => Some(BuildError::Strip(e)),
            None => None,
        },
    }
}

/// The error is the one that building the exchanged layout of a strip ends
/// with: the reason for which it cannot be begun, or, where it can, the
/// reason for which the first item that cannot be placed cannot, in the
/// strip that holds the items before it.
pub open spec fn strip_error_fits(
    e: BuildError,
    json_layout: JsonLayout,
    instance: SPInstance,
    config: CDEConfig,
) -> bool {
    match strip_structure_error(json_layout, instance.strip_height) {
        Some(x) => e == x,
        None => exists|p: SPProblem|
            strip_problem_of(p, instance, json_layout.container->width, config) && #[trigger] strip_stopped(
                p,
                json_layout.placed_items@,
                e,
            ),
    }
}

/// The exchanged item cannot be placed into the strip as the problem holds
/// it, for the reason given: it names no item, its motion is out of range, or
/// the problem rejects the placement.
pub open spec fn strip_step_fails(p: SPProblem, json_item: JsonPlacedItem, e: BuildError) -> bool {
    placing_outcome(
        spec_option_for(
            json_item,
            LayoutIndex::Existing(0),
            p.instance.items@,
            Transformation::spec_empty(),
        ),
        |opt: PlacingOption| p.spec_rejection(opt),
        Err::<PlacedItemUID, BuildError>(e),
    )
}

/// The strip of the problem holds the first of the exchanged items, placed
/// one after the other, and not the next, which cannot be placed for the
/// reason given.
pub open spec fn strip_stopped(p: SPProblem, json_items: Seq<JsonPlacedItem>, e: BuildError) -> bool {
    let k = p.layouts@[0].placed_items@.len() as int;
    &&& k < json_items.len()
    &&& p.layouts@[0].next_uid == k
    &&& layout_from_json(
        p.layouts@[0]@,
        json_items,
        k,
        p.instance.items@,
        Transformation::spec_empty(),
    )
    &&& strip_step_fails(p, json_items[k], e)
}

/// Places the exchanged items into the strip, which holds no item, one by
/// one in the order given, up to the first that cannot be placed.
#[verifier::rlimit(100)]
#[verifier::spinoff_prover]
pub fn fill_strip(problem: &mut SPProblem, json_items: &Vec<JsonPlacedItem>) -> (r: Result<
    (),
    BuildError,
>)
    requires
        Problem::wf(&*old(problem)),
        old(problem).layouts@[0].bin.pretransform == Transformation::spec_empty(),
        old(problem).layouts@[0].placed_items@.len() == 0,
        old(problem).layouts@[0].next_uid == 0,
    ensures
        Problem::wf(&*final(problem)),
        final(problem).instance == old(problem).instance,
        final(problem).config == old(problem).config,
        final(problem).strip_width == old(problem).strip_width,
        final(problem).solution_id_counter == old(problem).solution_id_counter,
        match r {
            Ok(_) => layout_from_json(
                final(problem).layouts@[0]@,
                json_items@,
                json_items@.len() as int,
                old(problem).instance.items@,
                Transformation::spec_empty(),
            ),
            Err(e) => strip_stopped(*final(problem), json_items@, e),
        },
{
    let n: usize = json_items.len();
    let mut k: usize = 0;
    while k < n
        invariant
            k <= n,
            n == json_items@.len(),
            Problem::wf(&*problem),
            problem.instance == old(problem).instance,
            problem.config == old(problem).config,
            problem.strip_width == old(problem).strip_width,
            problem.solution_id_counter == old(problem).solution_id_counter,
            problem.layouts@[0].bin.pretransform == Transformation::spec_empty(),
            problem.layouts@[0].next_uid == k,
            problem.layouts@[0].placed_items@.len() == k,
            layout_from_json(
                problem.layouts@[0]@,
                json_items@,
                k as int,
                old(problem).instance.items@,
                Transformation::spec_empty(),
            ),
        decreases n - k,
    {
        let ghost before = *problem;
        match place_in_strip(problem, &json_items[k]) {
            Ok(_) => {},
            Err(e) => {
                proof {
                    let opt = spec_option_for(
                        json_items@[k as int],
                        LayoutIndex::Existing(0),
                        before.instance.items@,
                        Transformation::spec_empty(),
                    );
                    if opt is Ok {
                        assert(before.spec_rejection(opt->Ok_0) == problem.spec_rejection(
                            opt->Ok_0,
                        ));
                    }
                    assert(strip_step_fails(*problem, json_items@[k as int], e));
                }
                return Err(e);
            },
        }
        proof {
            let l0 = before.layouts@[0];
            let l1 = problem.layouts@[0];
            assert(placed_views(l1.placed_items@) =~= placed_views(l0.placed_items@).push(
                l1.placed_items@.last()@,
            ));
            assert forall|j: int| 0 <= j < k + 1 implies placed_from_json(
                #[trigger] l1@.placed[j],
                json_items@[j],
                old(problem).instance.items@,
                Transformation::spec_empty(),
            ) by {
                if j < k {
                    assert(l1@.placed[j] == l0@.placed[j]);
                }
            }
        }
        k += 1;
    }
    Ok(())
}

/// Places the exchanged item into the strip.
pub fn place_in_strip(problem: &mut SPProblem, json_item: &JsonPlacedItem) -> (r: Result<
    PlacedItemUID,
    BuildError,
>)
    requires
        Problem::wf(&*old(problem)),
        old(problem).layouts@[0].bin.pretransform == Transformation::spec_empty(),
    ensures
        Problem::wf(&*final(problem)),
        final(problem).instance == old(problem).instance,
        final(problem).config == old(problem).config,
        final(problem).solution_id_counter == old(problem).solution_id_counter,
        final(problem).layouts@[0].bin == old(problem).layouts@[0].bin,
        match r {
            Ok(uid) => {
                &&& json_item.index < old(problem).instance.items@.len()
                &&& final(problem).layouts@[0].placed_items@.drop_last() == old(problem).layouts@[0].placed_items@
                &&& final(problem).layouts@[0].placed_items@.len() == old(problem).layouts@[0].placed_items@.len() + 1
                &&& final(problem).layouts@[0].next_uid == old(problem).layouts@[0].next_uid + 1
                &&& placed_from_json(
                    final(problem).layouts@[0].placed_items@.last()@,
                    *json_item,
                    old(problem).instance.items@,
                    Transformation::spec_empty(),
                )
            },
            Err(e) => old(problem).same_state(&*final(problem)),
        },
        placing_outcome(
            spec_option_for(
                *json_item,
                LayoutIndex::Existing(0),
                old(problem).instance.items@,
                Transformation::spec_empty(),
            ),
            |opt: PlacingOption| old(problem).spec_rejection(opt),
            r,
        ),
{
    proof {
        crate::entities::layout::lemma_layout_wf(problem.layouts@[0]);
    }
    let pretransf: Transformation = problem.layouts[0].bin.pretransform;
    let opt: PlacingOption = match option_for_json_item(
        json_item,
        LayoutIndex::Existing(0),
        &problem.instance.items,
        &pretransf,
    ) {
        Ok(opt) => opt,
        Err(e) => {
            return Err(e);
        },
    };
    match problem.place_item(&opt) {
        PlaceResult::Placed(_, uid) => Ok(uid),
        PlaceResult::Rejected(r) => Err(BuildError::Rejected(r)),
    }
}

/// Every bin of which the problem opens copies has given out no identifier.
pub open spec fn templates_fresh(p: BPProblem) -> bool {
    forall|c: int| 0 <= c < p.empty_layouts@.len() ==> (#[trigger] p.empty_layouts@[c]).next_uid == 0
}

/// The exchanged item cannot be placed into the layout named, which is in a
/// copy of the bin `bin_index`, as the problem holds it, for the reason
/// given: it names no item, its motion is out of range, or the problem
/// rejects the placement.
pub open spec fn bin_step_fails(
    p: BPProblem,
    layout_index: LayoutIndex,
    bin_index: int,
    json_item: JsonPlacedItem,
    e: BuildError,
) -> bool {
    placing_outcome(
        spec_option_for(
            json_item,
            layout_index,
            p.instance.items@,
            p.instance.bins@[bin_index].0.pretransform,
        ),
        |opt: PlacingOption| p.spec_rejection(opt),
        Err::<PlacedItemUID, BuildError>(e),
    )
}

/// Building the exchanged layout as the layout `l` of the problem has
/// stopped for the reason given: the layout cannot even be begun; or its
/// first item cannot be placed into a new copy of its bin; or the layout
/// holds the first of its items, placed one after the other, and not the
/// next, which cannot be placed.
pub open spec fn layout_stopped(p: BPProblem, l: int, json_layout: JsonLayout, e: BuildError) -> bool {
    match layout_structure_error(json_layout, p.instance.bins@.len()) {
        Some(x) => e == x && p.layouts@.len() == l,
        None => {
            let b = json_layout.container->index;
            if p.layouts@.len() == l {
                bin_step_fails(p, LayoutIndex::Empty(b), b as int, json_layout.placed_items@[0], e)
            } else {
                let k = p.layouts@[l].placed_items@.len() as int;
                &&& p.layouts@.len() == l + 1
                &&& 1 <= k < json_layout.placed_items@.len()
                &&& p.layouts@[l].next_uid == k
                &&& built_layout(p.layouts@[l], json_layout, k, p.instance.items@, p.instance.bins@)
                &&& bin_step_fails(
                    p,
                    LayoutIndex::Existing(l as usize),
                    b as int,
                    json_layout.placed_items@[k],
                    e,
                )
            }
        },
    }
}

/// Opens a copy of the bin that the exchanged layout names and places the
/// items that it describes into it, one by one in the order given, up to
/// the first that cannot be placed.
#[verifier::rlimit(100)]
#[verifier::spinoff_prover]
pub fn build_layout(problem: &mut BPProblem, json_layout: &JsonLayout) -> (r: Result<
    (),
    BuildError,
>)
    requires
        Problem::wf(&*old(problem)),
        templates_fresh(*old(problem)),
    ensures
        Problem::wf(&*final(problem)),
        templates_fresh(*final(problem)),
        final(problem).instance == old(problem).instance,
        final(problem).config == old(problem).config,
        final(problem).solution_id_counter == old(problem).solution_id_counter,
        forall|m: int|
            0 <= m < old(problem).layouts@.len() ==> #[trigger] final(problem).layouts@[m]
                == old(problem).layouts@[m],
        match r {
            Ok(_) => {
                &&& layout_structure_error(
                    *json_layout,
                    old(problem).instance.bins@.len(),
                ).is_none()
                &&& final(problem).layouts@.len() == old(problem).layouts@.len() + 1
                &&& built_layout(
                    final(problem).layouts@.last(),
                    *json_layout,
                    json_layout.placed_items@.len() as int,
                    old(problem).instance.items@,
                    old(problem).instance.bins@,
                )
            },
            Err(e) => layout_stopped(
                *final(problem),
                old(problem).layouts@.len() as int,
                *json_layout,
                e,
            ),
        },
{
    let bin_index: usize = match json_layout.container {
        JsonContainer::Bin { index } => index,
        JsonContainer::Strip { .. } => {
            return Err(BuildError::WrongContainer);
        },
    };
    if bin_index >= problem.instance.bins.len() {
        return Err(BuildError::UnknownBin);
    }
    let n: usize = json_layout.placed_items.len();
    if n == 0 {
        return Err(BuildError::EmptyLayout);
    }
    let l: usize = problem.layouts.len();
    match place_in_bin(problem, LayoutIndex::Empty(bin_index), bin_index, &json_layout.placed_items[0]) {
        Ok(_) => {},
        Err(e) => {
            proof {
                lemma_same_step(
                    *old(problem),
                    *problem,
                    LayoutIndex::Empty(bin_index),
                    bin_index as int,
                    json_layout.placed_items@[0],
                    e,
                );
            }
            return Err(e);
        },
    }
    proof {
        let l1 = problem.layouts@[l as int];
        assert(l1.placed_items@.len() == 1);
        assert(placed_views(l1.placed_items@)[0] == l1.placed_items@.last()@);
        assert forall|m: int| 0 <= m < l implies #[trigger] problem.layouts@[m] == old(problem).layouts@[m] by {
            assert(problem.layouts@[m] == problem.layouts@.drop_last()[m]);
        }
    }
    let mut k: usize = 1;
    while k < n
        invariant
            1 <= k <= n,
            n == json_layout.placed_items@.len(),
            bin_index < old(problem).instance.bins@.len(),
            json_layout.container == (JsonContainer::Bin { index: bin_index }),
            Problem::wf(&*problem),
            problem.instance == old(problem).instance,
            problem.config == old(problem).config,
            problem.solution_id_counter == old(problem).solution_id_counter,
            l == old(problem).layouts@.len(),
            problem.layouts@.len() == l + 1,
            forall|m: int| 0 <= m < l ==> #[trigger] problem.layouts@[m] == old(problem).layouts@[m],
            problem.layouts@[l as int].bin.id == bin_index,
            problem.layouts@[l as int].next_uid == k,
            problem.layouts@[l as int].placed_items@.len() == k,
            templates_fresh(*problem),
            layout_from_json(
                problem.layouts@[l as int]@,
                json_layout.placed_items@,
                k as int,
                old(problem).instance.items@,
                old(problem).instance.bins@[bin_index as int].0.pretransform,
            ),
        decreases n - k,
    {
        let ghost before = *problem;
        match place_in_bin(problem, LayoutIndex::Existing(l), bin_index, &json_layout.placed_items[k]) {
            Ok(_) => {},
            Err(e) => {
                proof {
                    lemma_same_step(
                        before,
                        *problem,
                        LayoutIndex::Existing(l),
                        bin_index as int,
                        json_layout.placed_items@[k as int],
                        e,
                    );
                }
                return Err(e);
            },
        }
        proof {
            let l0 = before.layouts@[l as int];
            let l1 = problem.layouts@[l as int];
            assert(placed_views(l1.placed_items@) =~= placed_views(l0.placed_items@).push(
                l1.placed_items@.last()@,
            ));
            assert forall|j: int| 0 <= j < k + 1 implies placed_from_json(
                #[trigger] l1@.placed[j],
                json_layout.placed_items@[j],
                old(problem).instance.items@,
                old(problem).instance.bins@[bin_index as int].0.pretransform,
            ) by {
                if j < k {
                    assert(l1@.placed[j] == l0@.placed[j]);
                }
            }
            assert forall|m: int| 0 <= m < l implies #[trigger] problem.layouts@[m] == old(problem).layouts@[m] by {
                assert(problem.layouts@[m] == before.layouts@[m]);
            }
        }
        k += 1;
    }
    Ok(())
}

/// Why the exchanged layout of bins cannot even be begun, if it cannot: it
/// names a strip, or no bin of the instance, or holds no item.
pub open spec fn layout_structure_error(json_layout: JsonLayout, n_bins: nat) -> Option<BuildError> {
    match json_layout.container {
        JsonContainer::Strip { .. } => Some(BuildError::WrongContainer),
        JsonContainer::Bin { index } => if index >= n_bins {
            Some(BuildError::UnknownBin)
        } else if json_layout.placed_items@.len() == 0 {
            Some(BuildError::EmptyLayout)
        } else {
            None
        },
    }
}

/// A step that fails in a problem fails in every problem in the same state.
pub proof fn lemma_same_step(
    before: BPProblem,
    after: BPProblem,
    layout_index: LayoutIndex,
    bin_index: int,
    json_item: JsonPlacedItem,
    e: BuildError,
)
    requires
        before.same_state(&after),
        bin_step_fails(before, layout_index, bin_index, json_item, e),
    ensures
        bin_step_fails(after, layout_index, bin_index, json_item, e),
{
    let opt = spec_option_for(
        json_item,
        layout_index,
        before.instance.items@,
        before.instance.bins@[bin_index].0.pretransform,
    );
    if opt is Ok {
        assert(before.spec_rejection(opt->Ok_0) == after.spec_rejection(opt->Ok_0));
    }
}

/// Building the exchanged layouts has stopped at the layout `l` for the
/// reason given: the problem holds the layouts before it as they are
/// described, and building that layout has stopped.
pub open spec fn bins_stopped(p: BPProblem, json_layouts: Seq<JsonLayout>, l: int, e: BuildError) -> bool {
    &&& 0 <= l < json_layouts.len()
    &&& forall|m: int|
        0 <= m < l ==> built_layout(
            p.layouts@[m],
            #[trigger] json_layouts[m],
            json_layouts[m].placed_items@.len() as int,
            p.instance.items@,
            p.instance.bins@,
        )
    &&& layout_stopped(p, l, json_layouts[l], e)
}

/// The problem is one of the instance's items and bins, and every bin of
/// which it opens copies has given out no identifier.
pub open spec fn bin_problem_of(p: BPProblem, instance: BPInstance, config: CDEConfig) -> bool {
    &&& Problem::wf(&p)
    &&& templates_fresh(p)
    &&& p.config == config
    &&& same_catalogue(instance, p.instance)
}

/// The error is the one that building the exchanged layouts ends with: the
/// reason for which building the first layout that cannot be built stops,
/// in the problem that holds what was built before.
pub open spec fn bins_error_fits(
    e: BuildError,
    json_layouts: Seq<JsonLayout>,
    instance: BPInstance,
    config: CDEConfig,
) -> bool {
    exists|p: BPProblem, l: int|
        bin_problem_of(p, instance, config) && #[trigger] bins_stopped(p, json_layouts, l, e)
}

/// The exchanged layouts as the instance `other` sees them are those that
/// the instance `instance` sees: the two have the same items and bins.
pub open spec fn same_catalogue(instance: BPInstance, other: BPInstance) -> bool {
    &&& other.items@.len() == instance.items@.len()
    &&& forall|i: int|
        0 <= i < instance.items@.len() ==> (#[trigger] other.items@[i]).0@ == instance.items@[i].0@
            && other.items@[i].1 == instance.items@[i].1
    &&& other.bins@.len() == instance.bins@.len()
    &&& forall|b: int|
        0 <= b < instance.bins@.len() ==> {
            &&& (#[trigger] other.bins@[b]).0.pretransform == instance.bins@[b].0.pretransform
            &&& other.bins@[b].1 == instance.bins@[b].1
            &&& other.bins@[b].0.area2 == instance.bins@[b].0.area2
            &&& bin_sketches(other.bins@[b].0) == bin_sketches(instance.bins@[b].0)
        }
}

/// What is built for one instance is built for any with the same catalogue.
pub proof fn lemma_built_for_same_catalogue(
    layout: Layout,
    json_layout: JsonLayout,
    instance: BPInstance,
    other: BPInstance,
)
    requires
        same_catalogue(instance, other),
        built_layout(
            layout,
            json_layout,
            json_layout.placed_items@.len() as int,
            other.items@,
            other.bins@,
        ),
    ensures
        built_layout(
            layout,
            json_layout,
            json_layout.placed_items@.len() as int,
            instance.items@,
            instance.bins@,
        ),
{
    let b = json_layout.container->index as int;
    assert(other.bins@[b].0.pretransform == instance.bins@[b].0.pretransform);
    assert forall|j: int| 0 <= j < json_layout.placed_items@.len() implies placed_from_json(
        #[trigger] layout@.placed[j],
        json_layout.placed_items@[j],
        instance.items@,
        instance.bins@[b].0.pretransform,
    ) by {
        let json_item = json_layout.placed_items@[j];
        assert(placed_from_json(
            layout@.placed[j],
            json_item,
            other.items@,
            other.bins@[b].0.pretransform,
        ));
        assert(other.items@[json_item.index as int].0@ == instance.items@[json_item.index as int].0@);
    }
}

/// Builds the solution that the exchanged layouts of bins describe, made at
/// `time_stamp`: for each layout a copy of its bin is taken from stock, and
/// the items are placed into it one by one, in the order given.
pub fn build_bin_packing_solution(
    instance: &BPInstance,
    json_layouts: &[JsonLayout],
    cde_config: CDEConfig,
    time_stamp: u64,
) -> (r: Result<Solution, BuildError>)
    requires
        instance.wf(),
        cde_config.wf(),
    ensures
        match r {
            Ok(s) => {
                &&& s.wf()
                &&& s.time_stamp == time_stamp
                &&& s.id == 1
                &&& bins_built(s, json_layouts@, *instance)
            },
            Err(e) => bins_error_fits(e, json_layouts@, *instance, cde_config),
        },
{
    let mut problem: BPProblem = BPProblem::new(instance.clone_instance(), cde_config);
    let ghost catalogue = problem.instance;
    let n_layouts: usize = json_layouts.len();
    let mut l: usize = 0;
    while l < n_layouts
        invariant
            l <= n_layouts,
            n_layouts == json_layouts@.len(),
            Problem::wf(&problem),
            problem.solution_id_counter == 0,
            problem.instance == catalogue,
            problem.config == cde_config,
            templates_fresh(problem),
            same_catalogue(*instance, catalogue),
            problem.layouts@.len() == l,
            forall|m: int|
                0 <= m < l ==> built_layout(
                    problem.layouts@[m],
                    #[trigger] json_layouts@[m],
                    json_layouts@[m].placed_items@.len() as int,
                    catalogue.items@,
                    catalogue.bins@,
                ) && layout_structure_error(json_layouts@[m], catalogue.bins@.len()).is_none(),
        decreases n_layouts - l,
    {
        let ghost before = problem;
        match build_layout(&mut problem, &json_layouts[l]) {
            Ok(_) => {},
            Err(e) => {
                proof {
                    assert forall|m: int| 0 <= m < l implies built_layout(
                        problem.layouts@[m],
                        #[trigger] json_layouts@[m],
                        json_layouts@[m].placed_items@.len() as int,
                        catalogue.items@,
                        catalogue.bins@,
                    ) by {
                        assert(problem.layouts@[m] == before.layouts@[m]);
                    }
                    assert(bins_stopped(problem, json_layouts@, l as int, e));
                }
                return Err(e);
            },
        }
        proof {
            assert forall|m: int| 0 <= m < l + 1 implies built_layout(
                problem.layouts@[m],
                #[trigger] json_layouts@[m],
                json_layouts@[m].placed_items@.len() as int,
                catalogue.items@,
                catalogue.bins@,
            ) && layout_structure_error(json_layouts@[m], catalogue.bins@.len()).is_none() by {
                if m < l {
                    assert(problem.layouts@[m] == before.layouts@[m]);
                }
            }
        }
        l += 1;
    }
    let ghost layouts = problem.layouts@;
    let s: Solution = problem.create_solution(&None, time_stamp);
    proof {
        assert(same_catalogue(*instance, catalogue));
        assert(snapshot_views(s.layout_snapshots@) == layout_views(problem.layouts@));
        assert(layout_views(problem.layouts@) == layout_views(layouts));
        assert(s.layout_snapshots@.len() == snapshot_views(s.layout_snapshots@).len());
        assert forall|m: int| 0 <= m < json_layouts@.len() implies {
            &&& layout_structure_error(#[trigger] json_layouts@[m], instance.bins@.len()).is_none()
            &&& json_layouts@[m].container->index < instance.bins@.len()
            &&& s.layout_snapshots@[m]@.bin_id == json_layouts@[m].container->index
            &&& layout_from_json(
                s.layout_snapshots@[m]@,
                json_layouts@[m].placed_items@,
                json_layouts@[m].placed_items@.len() as int,
                instance.items@,
                instance.bins@[json_layouts@[m].container->index as int].0.pretransform,
            )
        } by {
            lemma_built_for_same_catalogue(layouts[m], json_layouts@[m], *instance, catalogue);
            assert(snapshot_views(s.layout_snapshots@)[m] == s.layout_snapshots@[m]@);
            assert(layout_views(layouts)[m] == layouts[m]@);
        }
    }
    Ok(s)
}

/// The layout is in a copy of the bin that the exchanged layout names and
/// holds the first `k` items that it describes.
pub open spec fn built_layout(
    layout: Layout,
    json_layout: JsonLayout,
    k: int,
    items: Seq<(Item, usize)>,
    bins: Seq<(Bin, usize)>,
) -> bool {
    &&& json_layout.container is Bin
    &&& json_layout.container->index < bins.len()
    &&& layout.bin.id == json_layout.container->index
    &&& layout_from_json(
        layout@,
        json_layout.placed_items@,
        k,
        items,
        bins[json_layout.container->index as int].0.pretransform,
    )
}

/// Places the exchanged item into the layout named, which is in a copy of
/// the bin `bin_index`.
pub fn place_in_bin(
    problem: &mut BPProblem,
    layout_index: LayoutIndex,
    bin_index: usize,
    json_item: &JsonPlacedItem,
) -> (r: Result<PlacedItemUID, BuildError>)
    requires
        Problem::wf(&*old(problem)),
        bin_index < old(problem).instance.bins@.len(),
        match layout_index {
            LayoutIndex::Existing(i) => i < old(problem).layouts@.len() && old(problem).layouts@[i as int].bin.id == bin_index,
            LayoutIndex::Empty(b) => b == bin_index,
        },
    ensures
        Problem::wf(&*final(problem)),
        final(problem).instance == old(problem).instance,
        final(problem).config == old(problem).config,
        final(problem).solution_id_counter == old(problem).solution_id_counter,
        match r {
            Ok(uid) => {
                let target = match layout_index {
                    LayoutIndex::Existing(i) => i as int,
                    LayoutIndex::Empty(_) => old(problem).layouts@.len() as int,
                };
                let earlier = match layout_index {
                    LayoutIndex::Existing(i) => old(problem).layouts@[i as int].placed_items@,
                    LayoutIndex::Empty(_) => Seq::<PlacedItem>::empty(),
                };
                &&& json_item.index < old(problem).instance.items@.len()
                &&& final(problem).layouts@.len() == target + 1 || final(problem).layouts@.len()
                    == old(problem).layouts@.len()
                &&& layout_index is Empty ==> final(problem).layouts@.len() == target + 1
                    && final(problem).layouts@.drop_last() == old(problem).layouts@
                &&& layout_index is Existing ==> final(problem).layouts@.len() == old(problem).layouts@.len() && forall|j: int|
                    0 <= j < old(problem).layouts@.len() && j != target ==> final(problem).layouts@[j] == old(problem).layouts@[j]
                &&& final(problem).layouts@[target].bin.id == bin_index
                &&& final(problem).layouts@[target].placed_items@.drop_last() == earlier
                &&& final(problem).layouts@[target].placed_items@.len() == earlier.len() + 1
                &&& final(problem).layouts@[target].next_uid == 1 + match layout_index {
                    LayoutIndex::Existing(i) => old(problem).layouts@[i as int].next_uid,
                    LayoutIndex::Empty(b) => old(problem).empty_layouts@[b as int].next_uid,
                }
                &&& placed_from_json(
                    final(problem).layouts@[target].placed_items@.last()@,
                    *json_item,
                    old(problem).instance.items@,
                    old(problem).instance.bins@[bin_index as int].0.pretransform,
                )
            },
            Err(e) => old(problem).same_state(&*final(problem)),
        },
        templates_fresh(*old(problem)) ==> templates_fresh(*final(problem)),
        placing_outcome(
            spec_option_for(
                *json_item,
                layout_index,
                old(problem).instance.items@,
                old(problem).instance.bins@[bin_index as int].0.pretransform,
            ),
            |opt: PlacingOption| old(problem).spec_rejection(opt),
            r,
        ),
{
    assert(old(problem).instance.bins@[bin_index as int].0.wf());
    let pretransf: Transformation = problem.instance.bins[bin_index].0.pretransform;
    let opt: PlacingOption = match option_for_json_item(
        json_item,
        layout_index,
        &problem.instance.items,
        &pretransf,
    ) {
        Ok(opt) => opt,
        Err(e) => {
            return Err(e);
        },
    };
    match problem.place_item(&opt) {
        PlaceResult::Placed(_, uid) => {
            proof {
                match layout_index {
                    LayoutIndex::Existing(i) => {},
                    LayoutIndex::Empty(b) => {
                        assert(old(problem).empty_layouts@[b as int].placed_items@ =~= Seq::<
                            PlacedItem,
                        >::empty());
                    },
                }
            }
            Ok(uid)
        },
        PlaceResult::Rejected(r) => Err(BuildError::Rejected(r)),
    }
}

/// The solution holds, layout by layout, what the exchanged layouts of bins
/// describe.
pub open spec fn bins_built(s: Solution, json_layouts: Seq<JsonLayout>, instance: BPInstance) -> bool {
    &&& s.layout_snapshots@.len() == json_layouts.len()
    &&& forall|l: int|
        0 <= l < json_layouts.len() ==> {
            &&& layout_structure_error(#[trigger] json_layouts[l], instance.bins@.len()).is_none()
            &&& json_layouts[l].container->index < instance.bins@.len()
            &&& s.layout_snapshots@[l]@.bin_id == json_layouts[l].container->index
            &&& layout_from_json(
                s.layout_snapshots@[l]@,
                json_layouts[l].placed_items@,
                json_layouts[l].placed_items@.len() as int,
                instance.items@,
                instance.bins@[json_layouts[l].container->index as int].0.pretransform,
            )
        }
}

/// The solution holds what the exchanged layout of a strip describes.
pub open spec fn strip_built(s: Solution, json_layout: JsonLayout, instance: SPInstance) -> bool {
    &&& s.layout_snapshots@.len() == 1
    &&& json_layout.container is Strip
    &&& layout_from_json(
        s.layout_snapshots@[0]@,
        json_layout.placed_items@,
        json_layout.placed_items@.len() as int,
        instance.items@,
        Transformation::spec_empty(),
    )
}

/// The solution is the first of a problem of the instance, made at
/// `time_stamp`, and holds what the exchanged layouts describe.
pub open spec fn solution_built(
    s: Solution,
    json_layouts: Seq<JsonLayout>,
    instance: Instance,
    time_stamp: u64,
) -> bool {
    &&& s.wf()
    &&& s.time_stamp == time_stamp
    &&& s.id == 1
    &&& match instance {
        Instance::BP(bp) => bins_built(s, json_layouts, bp),
        Instance::SP(sp) => json_layouts.len() == 1 && strip_built(s, json_layouts[0], sp),
    }
}

/// The error is the one that building the exchanged layouts ends with.
pub open spec fn build_error_fits(
    e: BuildError,
    json_layouts: Seq<JsonLayout>,
    instance: Instance,
    config: CDEConfig,
) -> bool {
    match instance {
        Instance::BP(bp) => bins_error_fits(e, json_layouts, bp, config),
        Instance::SP(sp) => if json_layouts.len() != 1 {
            e == BuildError::NotOneLayout
        } else {
            strip_error_fits(e, json_layouts[0], sp, config)
        },
    }
}

/// Builds the solution that the exchanged layouts describe, made at
/// `time_stamp`.
pub fn build_solution_from_json(
    instance: &Instance,
    json_layouts: &[JsonLayout],
    cde_config: CDEConfig,
    time_stamp: u64,
) -> (r: Result<Solution, BuildError>)
    requires
        instance.wf(),
        cde_config.wf(),
    ensures
        match r {
            Ok(s) => solution_built(s, json_layouts@, *instance, time_stamp),
            Err(e) => build_error_fits(e, json_layouts@, *instance, cde_config),
        },
{
    match instance {
        Instance::BP(bp_i) => build_bin_packing_solution(
            bp_i,
            json_layouts,
            cde_config,
            time_stamp,
        ),
        Instance::SP(sp_i) => {
            if json_layouts.len() != 1 {
                return Err(BuildError::NotOneLayout);
            }
            build_strip_packing_solution(sp_i, &json_layouts[0], cde_config, time_stamp)
        },
    }
}

impl Parser {
    /// The instance given, and the solution that the layouts given describe,
    /// made at `time_stamp`.
    pub fn parse_and_build_solution(
        &self,
        json_instance: &JsonInstance,
        json_layouts: &Vec<JsonLayout>,
        time_stamp: u64,
    ) -> (r: Result<Result<(Instance, Solution), BuildError>, ParseError>)
        ensures
            match r {
                Ok(Ok((instance, solution))) => {
                    &&& self.parse_error(*json_instance).is_none()
                    &&& self.instance_parsed(*json_instance, instance)
                    &&& solution_built(solution, json_layouts@, instance, time_stamp)
                },
                Ok(Err(e)) => self.parse_error(*json_instance).is_none() && exists|
                    instance: Instance,
                |
                    self.instance_parsed(*json_instance, instance) && #[trigger] build_error_fits(
                        e,
                        json_layouts@,
                        instance,
                        self.cde_config,
                    ),
                Err(e) => self.parse_error(*json_instance) == Some(e),
            },
    {
        let instance: Instance = match self.parse(json_instance) {
            Ok(i) => i,
            Err(e) => {
                return Err(e);
            },
        };
        match build_solution_from_json(
            &instance,
            json_layouts.as_slice(),
            self.cde_config,
            time_stamp,
        ) {
            Ok(solution) => Ok(Ok((instance, solution))),
            Err(e) => {
                proof {
                    assert(build_error_fits(e, json_layouts@, instance, self.cde_config));
                }
                Ok(Err(e))
            },
        }
    }
}

/// Why a solution cannot be exchanged.
#[derive(Clone, Copy, Debug, PartialEq, Eq, Structural)]
pub enum ComposeError {
    /// A placed item names no item of the instance.
    UnknownItem,
    /// The motion of a placed item, as it is exchanged, is out of range.
    OutOfRange,
}

/// The placed item as it is exchanged: the item's position in the
/// instance, and the motion that takes the item's shape, as the instance
/// gives it, to its place in the container, as the instance gives it.
#[verifier::opaque]
pub open spec fn json_placement(
    placed: PlacedItemView,
    items: Seq<(Item, usize)>,
    bin_pretransf: Transformation,
) -> Result<JsonPlacedItem, ComposeError> {
    if placed.item_id >= items.len() {
        Err(ComposeError::UnknownItem)
    } else {
        match spec_internal_to_absolute(
            placed.d_transf,
            items[placed.item_id as int].0.centering_transform,
            bin_pretransf,
        ) {
            None => Err(ComposeError::OutOfRange),
            Some(t) => Ok(
                JsonPlacedItem {
                    index: placed.item_id,
                    transformation: JsonTransformation {
                        rotation: Rotation { cos: t.cos, sin: t.sin },
                        translation: Point(t.tx, t.ty),
                    },
                },
            ),
        }
    }
}

/// A placed item that is exchanged and taken back lies where it lay: where
/// the own motions of its item and of its container are translations, the
/// placing option made of what was exchanged, if one can be made, has the
/// motion of the placed item.
pub proof fn law_placement_round_trip(
    placed: PlacedItemView,
    items: Seq<(Item, usize)>,
    bin_pretransf: Transformation,
    layout_index: LayoutIndex,
)
    requires
        bin_pretransf.wf(),
        bin_pretransf.is_translation(),
        placed.item_id < items.len(),
        items[placed.item_id as int].0.centering_transform.wf(),
        items[placed.item_id as int].0.centering_transform.is_translation(),
        json_placement(placed, items, bin_pretransf) is Ok,
        spec_option_for(
            json_placement(placed, items, bin_pretransf)->Ok_0,
            layout_index,
            items,
            bin_pretransf,
        ) is Ok,
    ensures
        spec_option_for(
            json_placement(placed, items, bin_pretransf)->Ok_0,
            layout_index,
            items,
            bin_pretransf,
        )->Ok_0.transform == placed.d_transf.spec_compose(),
        placed_from_json(
            placed,
            json_placement(placed, items, bin_pretransf)->Ok_0,
            items,
            bin_pretransf,
        ),
{
    reveal(json_placement);
    let item_pretransf = items[placed.item_id as int].0.centering_transform;
    let t = spec_internal_to_absolute(placed.d_transf, item_pretransf, bin_pretransf).unwrap();
    let json_item = json_placement(placed, items, bin_pretransf)->Ok_0;
    assert(DTransformation {
        rotation: json_item.transformation.rotation,
        translation: json_item.transformation.translation,
    } == t.spec_decompose());
    law_transform_round_trip(placed.d_transf, item_pretransf, bin_pretransf);
}

/// The own motions of the items and bins that the parser makes are
/// translations.
pub proof fn lemma_parsed_motions_translate(
    parser: Parser,
    json_instance: JsonInstance,
    instance: Instance,
)
    requires
        parser.instance_parsed(json_instance, instance),
    ensures
        forall|i: int|
            0 <= i < instance.spec_items().len() ==> (
            #[trigger] instance.spec_items()[i]).0.centering_transform.is_translation(),
        match instance {
            Instance::BP(bp) => forall|b: int|
                0 <= b < bp.bins@.len() ==> (#[trigger] bp.bins@[b]).0.pretransform.is_translation(),
            Instance::SP(_) => true,
        },
{
    reveal(item_parsed);
    reveal(bin_parsed);
    assert forall|i: int| 0 <= i < instance.spec_items().len() implies (
    #[trigger] instance.spec_items()[i]).0.centering_transform.is_translation() by {
        assert(item_parsed(
            json_instance.items@[i],
            parser.center_polygons,
            i as usize,
            instance.spec_items()[i],
        ));
    }
    match instance {
        Instance::BP(bp) => {
            assert forall|b: int| 0 <= b < bp.bins@.len() implies (
            #[trigger] bp.bins@[b]).0.pretransform.is_translation() by {
                assert(bin_parsed(
                    json_instance.bins.unwrap()@[b],
                    parser.center_polygons,
                    b as usize,
                    bp.bins@[b],
                ));
            }
        },
        Instance::SP(_) => {},
    }
}

/// In an instance that the parser made, a placed item that is exchanged
/// and taken back lies where it lay: the placing option made of what was
/// exchanged, if one can be made, has the motion of the placed item.
pub proof fn law_exchange_round_trip(
    parser: Parser,
    json_instance: JsonInstance,
    instance: Instance,
    placed: PlacedItemView,
    bin_pretransf: Transformation,
    layout_index: LayoutIndex,
)
    requires
        parser.instance_parsed(json_instance, instance),
        match instance {
            Instance::BP(bp) => exists|b: int|
                0 <= b < bp.bins@.len() && (#[trigger] bp.bins@[b]).0.pretransform == bin_pretransf,
            Instance::SP(_) => bin_pretransf == Transformation::spec_empty(),
        },
        json_placement(placed, instance.spec_items(), bin_pretransf) is Ok,
        spec_option_for(
            json_placement(placed, instance.spec_items(), bin_pretransf)->Ok_0,
            layout_index,
            instance.spec_items(),
            bin_pretransf,
        ) is Ok,
    ensures
        spec_option_for(
            json_placement(placed, instance.spec_items(), bin_pretransf)->Ok_0,
            layout_index,
            instance.spec_items(),
            bin_pretransf,
        )->Ok_0.transform == placed.d_transf.spec_compose(),
{
    reveal(json_placement);
    lemma_parsed_motions_translate(parser, json_instance, instance);
    let items = instance.spec_items();
    assert(items[placed.item_id as int].0.wf());
    match instance {
        Instance::BP(bp) => {
            let b = choose|b: int|
                0 <= b < bp.bins@.len() && (#[trigger] bp.bins@[b]).0.pretransform == bin_pretransf;
            assert(bp.bins@[b].0.wf());
        },
        Instance::SP(_) => {},
    }
    law_placement_round_trip(placed, items, bin_pretransf, layout_index);
}

/// The container of a layout as it is exchanged: the bin by its
/// identifier, the strip by its measures.
pub open spec fn json_container(instance: Instance, snapshot: LayoutSnapshot) -> JsonContainer {
    match instance {
        Instance::BP(_) => JsonContainer::Bin { index: snapshot.bin.id },
        Instance::SP(sp) => JsonContainer::Strip {
            width: snapshot.bin.outer.bbox.spec_width() as i64,
            height: sp.strip_height,
        },
    }
}

/// The time between two moments of a clock that counts milliseconds, in
/// whole seconds: none where the second is not after the first.
pub open spec fn run_time_sec(time_stamp: u64, epoch: u64) -> u64 {
    if time_stamp >= epoch {
        ((time_stamp - epoch) / 1000) as u64
    } else {
        0
    }
}

/// The exchanged layout is the snapshot as it is exchanged.
pub open spec fn layout_composed(instance: Instance, snapshot: LayoutSnapshot, json: JsonLayout) -> bool {
    &&& json.container == json_container(instance, snapshot)
    &&& json.statistics.usage == snapshot.usage
    &&& json.placed_items@.len() == snapshot.placed_items@.len()
    &&& forall|k: int|
        0 <= k < snapshot.placed_items@.len() ==> json_placement(
            (#[trigger] snapshot.placed_items@[k])@,
            instance.spec_items(),
            snapshot.bin.pretransform,
        ) == Ok::<JsonPlacedItem, ComposeError>(json.placed_items@[k])
}

/// Why the first of the first `k` placed items that cannot be exchanged
/// cannot, if there is one.
pub open spec fn first_placement_error(
    placed: Seq<PlacedItem>,
    items: Seq<(Item, usize)>,
    bin_pretransf: Transformation,
    k: nat,
) -> Option<ComposeError>
    decreases k,
{
    if k == 0 {
        None
    } else {
        match first_placement_error(placed, items, bin_pretransf, (k - 1) as nat) {
            Some(e) => Some(e),
            None => match json_placement(placed[k - 1]@, items, bin_pretransf) {
                Err(e) => Some(e),
                Ok(_) => None,
            },
        }
    }
}

/// Why the snapshot cannot be exchanged, if it cannot.
pub open spec fn layout_compose_error(instance: Instance, snapshot: LayoutSnapshot) -> Option<
    ComposeError,
> {
    first_placement_error(
        snapshot.placed_items@,
        instance.spec_items(),
        snapshot.bin.pretransform,
        snapshot.placed_items@.len(),
    )
}

/// Why the first of the first `l` snapshots that cannot be exchanged
/// cannot, if there is one.
pub open spec fn first_layout_error(
    snapshots: Seq<LayoutSnapshot>,
    instance: Instance,
    l: nat,
) -> Option<ComposeError>
    decreases l,
{
    if l == 0 {
        None
    } else {
        match first_layout_error(snapshots, instance, (l - 1) as nat) {
            Some(e) => Some(e),
            None => layout_compose_error(instance, snapshots[l - 1]),
        }
    }
}

/// Once a placed item cannot be exchanged, looking at more changes nothing.
pub proof fn lemma_placement_error_stays(
    placed: Seq<PlacedItem>,
    items: Seq<(Item, usize)>,
    bin_pretransf: Transformation,
    k: nat,
    m: nat,
)
    requires
        first_placement_error(placed, items, bin_pretransf, k).is_some(),
        k <= m,
    ensures
        first_placement_error(placed, items, bin_pretransf, m) == first_placement_error(
            placed,
            items,
            bin_pretransf,
            k,
        ),
    decreases m,
{
    if k < m {
        lemma_placement_error_stays(placed, items, bin_pretransf, k, (m - 1) as nat);
    }
}

/// Once a snapshot cannot be exchanged, looking at more changes nothing.
pub proof fn lemma_layout_error_stays(
    snapshots: Seq<LayoutSnapshot>,
    instance: Instance,
    l: nat,
    m: nat,
)
    requires
        first_layout_error(snapshots, instance, l).is_some(),
        l <= m,
    ensures
        first_layout_error(snapshots, instance, m) == first_layout_error(snapshots, instance, l),
    decreases m,
{
    if l < m {
        lemma_layout_error_stays(snapshots, instance, l, (m - 1) as nat);
    }
}

/// The placed item as it is exchanged.
pub fn compose_json_placement(
    placed_item: &PlacedItem,
    items: &Vec<(Item, usize)>,
    bin_pretransf: &Transformation,
) -> (r: Result<JsonPlacedItem, ComposeError>)
    requires
        crate::entities::instances::instance::items_ok(items@),
        bin_pretransf.wf(),
    ensures
        r == json_placement(placed_item@, items@, *bin_pretransf),
{
    reveal(json_placement);
    let item_index: usize = placed_item.item_id;
    if item_index >= items.len() {
        return Err(ComposeError::UnknownItem);
    }
    let item: &Item = &items[item_index].0;
    assert(items@[item_index as int].0.wf());
    let abs_transf: Transformation = match internal_to_absolute_transform(
        &placed_item.d_transf,
        &item.centering_transform,
        bin_pretransf,
    ) {
        Some(t) => t,
        None => {
            return Err(ComposeError::OutOfRange);
        },
    };
    let d: DTransformation = abs_transf.decompose();
    Ok(
        JsonPlacedItem {
            index: item_index,
            transformation: JsonTransformation {
                rotation: d.rotation(),
                translation: Point(d.translation().0, d.translation().1),
            },
        },
    )
}

/// The snapshot as it is exchanged, unless one of its items cannot be: the
/// error is that of the first such item.
pub fn compose_json_layout(snapshot: &LayoutSnapshot, instance: &Instance) -> (r: Result<
    JsonLayout,
    ComposeError,
>)
    requires
        snapshot.wf(),
        instance.wf(),
    ensures
        match r {
            Ok(json) => layout_compose_error(*instance, *snapshot).is_none() && layout_composed(
                *instance,
                *snapshot,
                json,
            ),
            Err(e) => layout_compose_error(*instance, *snapshot) == Some(e),
        },
{
    proof {
        crate::entities::layout::lemma_snapshot_wf(*snapshot);
    }
    let container: JsonContainer = match instance {
        Instance::BP(_) => JsonContainer::Bin { index: snapshot.bin.id },
        Instance::SP(spi) => JsonContainer::Strip {
            width: snapshot.bin.outer.bbox.width(),
            height: spi.strip_height,
        },
    };
    let items: &Vec<(Item, usize)> = instance.items();
    let mut placed_items: Vec<JsonPlacedItem> = Vec::new();
    let mut k: usize = 0;
    while k < snapshot.placed_items.len()
        invariant
            k <= snapshot.placed_items.len(),
            crate::entities::instances::instance::items_ok(items@),
            items@ == instance.spec_items(),
            snapshot.bin.pretransform.wf(),
            placed_items@.len() == k,
            first_placement_error(
                snapshot.placed_items@,
                instance.spec_items(),
                snapshot.bin.pretransform,
                k as nat,
            ).is_none(),
            forall|j: int|
                0 <= j < k ==> json_placement(
                    (#[trigger] snapshot.placed_items@[j])@,
                    instance.spec_items(),
                    snapshot.bin.pretransform,
                ) == Ok::<JsonPlacedItem, ComposeError>(placed_items@[j]),
        decreases snapshot.placed_items.len() - k,
    {
        let json_item: JsonPlacedItem = match compose_json_placement(
            &snapshot.placed_items[k],
            items,
            &snapshot.bin.pretransform,
        ) {
            Ok(json_item) => json_item,
            Err(e) => {
                proof {
                    lemma_placement_error_stays(
                        snapshot.placed_items@,
                        instance.spec_items(),
                        snapshot.bin.pretransform,
                        (k + 1) as nat,
                        snapshot.placed_items@.len(),
                    );
                }
                return Err(e);
            },
        };
        placed_items.push(json_item);
        k += 1;
    }
    Ok(JsonLayout { container, placed_items, statistics: JsonLayoutStats { usage: snapshot.usage } })
}

/// The solution as it is exchanged; `epoch` is the moment from which the run
/// time counts, on the clock of the solution's time stamp.
pub fn compose_json_solution(solution: &Solution, instance: &Instance, epoch: u64) -> (r: Result<
    JsonSolution,
    ComposeError,
>)
    requires
        solution.wf(),
        instance.wf(),
    ensures
        match r {
            Ok(json) => {
                &&& first_layout_error(
                    solution.layout_snapshots@,
                    *instance,
                    solution.layout_snapshots@.len(),
                ).is_none()
                &&& json.usage == solution.usage
                &&& json.run_time_sec == run_time_sec(solution.time_stamp, epoch)
                &&& json.layouts@.len() == solution.layout_snapshots@.len()
                &&& forall|l: int|
                    0 <= l < solution.layout_snapshots@.len() ==> layout_composed(
                        *instance,
                        #[trigger] solution.layout_snapshots@[l],
                        json.layouts@[l],
                    )
            },
            Err(e) => first_layout_error(
                solution.layout_snapshots@,
                *instance,
                solution.layout_snapshots@.len(),
            ) == Some(e),
        },
{
    let mut layouts: Vec<JsonLayout> = Vec::new();
    let mut l: usize = 0;
    while l < solution.layout_snapshots.len()
        invariant
            l <= solution.layout_snapshots.len(),
            solution.wf(),
            instance.wf(),
            layouts@.len() == l,
            first_layout_error(solution.layout_snapshots@, *instance, l as nat).is_none(),
            forall|m: int|
                0 <= m < l ==> layout_composed(
                    *instance,
                    #[trigger] solution.layout_snapshots@[m],
                    layouts@[m],
                ),
        decreases solution.layout_snapshots.len() - l,
    {
        assert(solution.layout_snapshots@[l as int].wf());
        match compose_json_layout(&solution.layout_snapshots[l], instance) {
            Ok(json) => {
                layouts.push(json);
            },
            Err(e) => {
                proof {
                    lemma_layout_error_stays(
                        solution.layout_snapshots@,
                        *instance,
                        (l + 1) as nat,
                        solution.layout_snapshots@.len(),
                    );
                }
                return Err(e);
            },
        }
        l += 1;
    }
    let run_time: u64 = if solution.time_stamp >= epoch {
        (solution.time_stamp - epoch) / 1000
    } else {
        0
    };
    Ok(JsonSolution { layouts, usage: solution.usage, run_time_sec: run_time })
}

} // verus!
