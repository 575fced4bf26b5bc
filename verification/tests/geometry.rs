use jagua_rs::geometry::aa_rectangle::AARectangle;
use jagua_rs::geometry::arith::{sqrt_ceil, sqrt_floor};
use jagua_rs::geometry::circle::Circle;
use jagua_rs::geometry::edge::Edge;
use jagua_rs::geometry::fail_fast::poi::{generate_additional_surrogate_poles, generate_next_pole};
use jagua_rs::geometry::geo_enums::{GeoPosition, Rounding};
use jagua_rs::geometry::point::Point;
use jagua_rs::geometry::simple_polygon::{ShapeError, SimplePolygon};
use jagua_rs::util::config::SPSurrogateConfig;

fn square(side: i64) -> SimplePolygon {
    SimplePolygon::new(vec![Point(0, 0), Point(side, 0), Point(side, side), Point(0, side)])
        .unwrap()
}

fn l_shape(unit: i64) -> SimplePolygon {
    SimplePolygon::new(vec![
        Point(0, 0),
        Point(2 * unit, 0),
        Point(2 * unit, unit),
        Point(unit, unit),
        Point(unit, 2 * unit),
        Point(0, 2 * unit),
    ])
    .unwrap()
}

#[test]
fn integer_roots_are_exact() {
    assert_eq!(sqrt_floor(0), 0);
    assert_eq!(sqrt_floor(15), 3);
    assert_eq!(sqrt_floor(16), 4);
    assert_eq!(sqrt_floor(17), 4);
    assert_eq!(sqrt_ceil(0), 0);
    assert_eq!(sqrt_ceil(16), 4);
    assert_eq!(sqrt_ceil(17), 5);
    assert_eq!(sqrt_floor(u128::MAX), u64::MAX);
}

#[test]
fn edge_distance_rounds_as_asked() {
    let e = Edge::new(Point(0, 0), Point(10, 0)).unwrap();
    assert_eq!(e.distance(&Point(5, 3), Rounding::Down), 3);
    assert_eq!(e.distance(&Point(13, 4), Rounding::Down), 5);
    assert_eq!(e.distance(&Point(-1, 1), Rounding::Down), 1);
    assert_eq!(e.distance(&Point(-1, 1), Rounding::Up), 2);
    let d = Edge::new(Point(0, 0), Point(3, 3)).unwrap();
    assert_eq!(d.distance(&Point(3, 0), Rounding::Down), 2);
    assert_eq!(d.distance(&Point(3, 0), Rounding::Up), 3);
}

#[test]
fn degenerate_edge_is_refused() {
    assert_eq!(Edge::new(Point(1, 1), Point(1, 1)), None);
}

#[test]
fn edges_cross_or_not() {
    let a = Edge::new(Point(0, 0), Point(4, 4)).unwrap();
    let b = Edge::new(Point(0, 4), Point(4, 0)).unwrap();
    let c = Edge::new(Point(5, 0), Point(9, 4)).unwrap();
    let t = Edge::new(Point(4, 4), Point(8, 4)).unwrap();
    assert!(a.collides_with(&b));
    assert!(!a.collides_with(&c));
    assert!(a.collides_with(&t));
}

#[test]
fn rectangle_measurements() {
    let r = AARectangle::new(0, 0, 6, 8).unwrap();
    assert_eq!(r.centroid(), Point(3, 4));
    assert_eq!(r.radius(), 5);
    assert_eq!(r.diameter(Rounding::Down), 10);
    assert_eq!(r.area(), 48);
    let q = r.quadrants();
    assert_eq!(q[0], AARectangle::new(3, 4, 6, 8).unwrap());
    assert_eq!(q[2], AARectangle::new(0, 0, 3, 4).unwrap());
    assert_eq!(AARectangle::new(3, 0, 2, 8), None);
}

#[test]
fn circle_border_distance() {
    let c = Circle::new(Point(0, 0), 5).unwrap();
    assert_eq!(c.distance_from_border(&Point(3, 0), Rounding::Down), (GeoPosition::Interior, 2));
    assert_eq!(c.distance_from_border(&Point(8, 0), Rounding::Down), (GeoPosition::Exterior, 3));
    assert_eq!(c.distance_from_border(&Point(6, 6), Rounding::Down), (GeoPosition::Exterior, 3));
    assert_eq!(c.distance_from_border(&Point(6, 6), Rounding::Up), (GeoPosition::Exterior, 4));
    assert_eq!(c.proximity(&Point(3, 4)), 0);
    assert_eq!(c.proximity(&Point(6, 8)), 5);
}

#[test]
fn poi_of_unit_square_is_exact() {
    let unit: i64 = 1_000_000;
    let p = square(unit);
    assert_eq!(p.poi.center, Point(unit / 2, unit / 2));
    assert_eq!(p.poi.radius, unit / 2);
}

#[test]
fn poi_of_l_shape_touches_both_outer_walls_and_the_inner_corner() {
    let unit: i64 = 1_000_000;
    let p = l_shape(unit);
    let radius = p.poi.radius as f64 / unit as f64;
    let largest = 2.0 - 2.0_f64.sqrt();
    assert!(radius >= 0.5, "radius {}", radius);
    assert!(radius <= largest, "radius {}", radius);
    assert!(largest - radius <= 4.0 / 1024.0, "radius {}", radius);
    assert!(p.collides_with(&p.poi.center));
    assert!(p.distance_from_border(&p.poi.center, Rounding::Down).1 >= p.poi.radius);
}

#[test]
fn disk_of_half_a_unit_fits_in_each_arm_of_the_l_shape() {
    let unit: i64 = 1_000_000;
    let p = l_shape(unit);
    for c in [Point(3 * unit / 2, unit / 2), Point(unit / 2, 3 * unit / 2)] {
        assert!(p.collides_with(&c));
        let d = p.distance_from_border(&c, Rounding::Down).1 as f64 / unit as f64;
        assert!((d - 0.5).abs() <= 1e-6, "distance {}", d);
    }
}

#[test]
fn polygon_measurements() {
    let p = l_shape(10);
    assert_eq!(p.double_area(), 600);
    assert_eq!(p.area2, 600);
    assert_eq!(p.bbox(), AARectangle::new(0, 0, 20, 20).unwrap());
    assert_eq!(p.centroid(), Point(8, 8));
    assert!(p.collides_with(&Point(5, 15)));
    assert!(!p.collides_with(&Point(15, 15)));
    assert_eq!(
        p.distance_from_border(&Point(15, 15), Rounding::Down),
        (GeoPosition::Exterior, 5)
    );
}

#[test]
fn polygon_defects_are_told_apart() {
    assert_eq!(
        SimplePolygon::new(vec![Point(0, 0), Point(1, 0)]).unwrap_err(),
        ShapeError::InvalidOutline
    );
    assert_eq!(
        SimplePolygon::new(vec![Point(0, 0), Point(5, 0), Point(5, 0), Point(0, 5)]).unwrap_err(),
        ShapeError::InvalidOutline
    );
    assert_eq!(
        SimplePolygon::new(vec![Point(0, 0), Point(5, 0), Point(10, 0)]).unwrap_err(),
        ShapeError::ZeroArea
    );
    assert_eq!(
        SimplePolygon::new(vec![Point(0, 0), Point(1, 0), Point(0, 1)]).unwrap_err(),
        ShapeError::Degenerate
    );
    let twice_around = vec![
        Point(0, 0),
        Point(10, 0),
        Point(10, 10),
        Point(0, 10),
        Point(0, 0),
        Point(10, 0),
        Point(10, 10),
        Point(0, 10),
    ];
    assert_eq!(SimplePolygon::new(twice_around).unwrap_err(), ShapeError::SelfIntersecting);
    assert_eq!(
        SimplePolygon::new(vec![Point(0, 0), Point(1 << 30, 0), Point(0, 5)]).unwrap_err(),
        ShapeError::InvalidOutline
    );
}

#[test]
fn clockwise_polygon_has_a_negative_signed_area() {
    let p = SimplePolygon::new(vec![Point(0, 0), Point(0, 10), Point(10, 10), Point(10, 0)]).unwrap();
    assert_eq!(p.area2, -200);
    assert_eq!(p.double_area(), 200);
    assert_eq!(p.centroid(), Point(5, 5));
    assert_eq!(p.number_of_points(), 4);
    assert_eq!(p.get_point(1), Point(0, 10));
    assert_eq!(p.get_edge(3), Edge::new(Point(10, 0), Point(0, 0)).unwrap());
    assert_eq!(p.get_edge(3).bbox(), AARectangle::new(0, 0, 10, 0).unwrap());
}

#[test]
fn surrogate_starts_with_the_poi_and_is_bounded() {
    let mut p = l_shape(1000);
    let config = SPSurrogateConfig { pole_coverage_goal: 1000, max_poles: 4, n_ff_poles: 2, n_ff_piers: 0 };
    p.generate_surrogate(config);
    let s = p.surrogate.as_ref().unwrap();
    assert_eq!(s.poles[0], p.poi);
    assert_eq!(s.poles.len(), 5);
    assert_eq!(s.n_ff_poles, 2);
    assert_eq!(s.poles_bounding_circle.center, p.poi.center);
    for pole in s.poles.iter() {
        let d = p.poi.center.distance(&pole.center, Rounding::Up);
        assert!(d + pole.radius <= s.poles_bounding_circle.radius);
    }
    let reached = s
        .poles
        .iter()
        .any(|pole| p.poi.center.distance(&pole.center, Rounding::Up) + pole.radius
            == s.poles_bounding_circle.radius);
    assert!(reached);
    let copy = p.clone_polygon();
    assert_eq!(copy.points, p.points);
    assert_eq!(copy.surrogate.as_ref().unwrap().poles, s.poles);
}

#[test]
fn next_pole_avoids_earlier_poles() {
    let p = l_shape(1000);
    let first = p.poi;
    let second = generate_next_pole(&p, &[first]).unwrap();
    let dx = (first.center.0 - second.center.0) as i128;
    let dy = (first.center.1 - second.center.1) as i128;
    let reach = (first.radius + second.radius) as i128;
    assert!(second.radius > 0);
    assert!(dx * dx + dy * dy >= reach * reach);
    assert!(p.collides_with(&second.center));
}

#[test]
fn additional_poles_are_disjoint_and_inside() {
    let p = l_shape(1000);
    let poles = generate_additional_surrogate_poles(&p, 6, 950);
    assert!(!poles.is_empty());
    assert!(poles.len() <= 6);
    let mut all = vec![p.poi];
    all.extend(poles.iter().copied());
    for (i, a) in all.iter().enumerate() {
        assert!(a.radius > 0);
        assert!(p.collides_with(&a.center));
        assert!(p.distance_from_border(&a.center, Rounding::Down).1 >= a.radius);
        for b in all.iter().skip(i + 1) {
            let dx = (a.center.0 - b.center.0) as i128;
            let dy = (a.center.1 - b.center.1) as i128;
            let reach = (a.radius + b.radius) as i128;
            assert!(dx * dx + dy * dy >= reach * reach);
        }
    }
}

#[test]
fn no_additional_poles_when_none_asked() {
    let p = square(100);
    assert!(generate_additional_surrogate_poles(&p, 0, 900).is_empty());
}
