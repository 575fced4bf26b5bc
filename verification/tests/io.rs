use jagua_rs::entities::instances::instance::Instance;
use jagua_rs::entities::layout::Usage;
use jagua_rs::entities::problems::problem::Rejection;
use jagua_rs::geometry::geo_enums::AllowedRotation;
use jagua_rs::geometry::point::Point;
use jagua_rs::geometry::simple_polygon::ShapeError;
use jagua_rs::geometry::transformation::{
    DTransformation, Rotation, Transformation, ROT_ONE, TRANSLATION_MAX,
};
use jagua_rs::io::json_instance::{
    JsonBin, JsonInstance, JsonItem, JsonPoly, JsonQualityZone, JsonShape, JsonSimplePoly,
    JsonStrip,
};
use jagua_rs::io::json_solution::{
    JsonContainer, JsonLayout, JsonLayoutStats, JsonPlacedItem, JsonTransformation,
};
use jagua_rs::entities::bin::BinError;
use jagua_rs::io::parser::{
    ComposeError,
    absolute_to_internal_transform, build_solution_from_json, compose_json_solution,
    convert_json_simple_poly, internal_to_absolute_transform, json_simple_poly_to_points,
    BuildError, ParseError, Parser,
};
use jagua_rs::io::web::{reply_to, InputData, Json, Reply};
use jagua_rs::util::config::CDEConfig;

fn config() -> CDEConfig {
    CDEConfig { hpg_n_cells: 100, ..CDEConfig::default() }
}

fn parser(center: bool) -> Parser {
    Parser::new(config(), center)
}

fn rect_item(width: i64, height: i64, demand: u64) -> JsonItem {
    JsonItem {
        demand,
        dxf: None,
        value: None,
        base_quality: None,
        allowed_orientations: None,
        shape: Some(JsonShape::Rectangle { width, height }),
    }
}

fn poly(points: &[(i64, i64)]) -> JsonSimplePoly {
    JsonSimplePoly(points.to_vec())
}

fn rect_bin(side: i64, stock: Option<u64>) -> JsonBin {
    JsonBin {
        cost: 1,
        stock,
        shape: Some(JsonShape::Rectangle { width: side, height: side }),
        zones: vec![],
    }
}

fn instance_of(items: Vec<JsonItem>, bins: Option<Vec<JsonBin>>, strip: Option<i64>) -> JsonInstance {
    JsonInstance {
        name: String::from("test"),
        items,
        bins,
        strip: strip.map(|height| JsonStrip { height }),
    }
}

fn no_rotation(x: i64, y: i64) -> JsonTransformation {
    JsonTransformation { rotation: Rotation { cos: ROT_ONE, sin: 0 }, translation: Point(x, y) }
}

#[test]
fn closing_vertex_is_stripped() {
    let closed = poly(&[(0, 0), (4, 0), (4, 4), (0, 0)]);
    assert_eq!(json_simple_poly_to_points(&closed), vec![Point(0, 0), Point(4, 0), Point(4, 4)]);
    let open = poly(&[(0, 0), (4, 0), (4, 4)]);
    assert_eq!(json_simple_poly_to_points(&open), vec![Point(0, 0), Point(4, 0), Point(4, 4)]);
    assert!(json_simple_poly_to_points(&poly(&[])).is_empty());
    assert!(json_simple_poly_to_points(&poly(&[(1, 1)])).is_empty());
}

#[test]
fn polygons_are_centred_on_their_centre_of_mass() {
    let square = poly(&[(100, 100), (300, 100), (300, 300), (100, 300), (100, 100)]);
    let (shape, t) = convert_json_simple_poly(&square, true).unwrap();
    assert_eq!(t, Transformation::from_translation(-200, -200).unwrap());
    assert_eq!(
        shape.points,
        vec![Point(-100, -100), Point(100, -100), Point(100, 100), Point(-100, 100)]
    );
    assert_eq!(shape.centroid(), Point(0, 0));
    let (shape, t) = convert_json_simple_poly(&square, false).unwrap();
    assert_eq!(t, Transformation::empty());
    assert_eq!(shape.points[0], Point(100, 100));
    assert_eq!(
        convert_json_simple_poly(&poly(&[(0, 0), (1, 1), (2, 2)]), true).unwrap_err(),
        ParseError::InvalidShape(ShapeError::ZeroArea)
    );
    assert_eq!(
        convert_json_simple_poly(&poly(&[]), true).unwrap_err(),
        ParseError::InvalidShape(ShapeError::InvalidOutline)
    );
}

#[test]
fn item_orientations_follow_the_rule() {
    let p = parser(false);
    let quarter = Rotation { cos: 0, sin: ROT_ONE };
    let zero = Rotation { cos: ROT_ONE, sin: 0 };
    let with = |o: Option<Vec<Rotation>>| {
        let mut item = rect_item(30, 30, 2);
        item.allowed_orientations = o;
        p.parse_item(&item, 4).unwrap().0
    };
    assert!(matches!(with(None).allowed_rotation(), AllowedRotation::Continuous));
    assert!(matches!(with(Some(vec![])).allowed_rotation(), AllowedRotation::NoRotation));
    assert!(matches!(with(Some(vec![zero])).allowed_rotation(), AllowedRotation::NoRotation));
    match with(Some(vec![zero, quarter])).allowed_rotation() {
        AllowedRotation::Discrete(v) => assert_eq!(v, &vec![zero, quarter]),
        other => panic!("unexpected {:?}", other),
    }
    match with(Some(vec![quarter])).allowed_rotation() {
        AllowedRotation::Discrete(v) => assert_eq!(v, &vec![quarter]),
        other => panic!("unexpected {:?}", other),
    }
}

#[test]
fn item_fields_are_taken_over() {
    let p = parser(true);
    let mut json = rect_item(30, 40, 7);
    json.value = Some(12);
    json.base_quality = Some(3);
    let (item, qty) = p.parse_item(&json, 2).unwrap();
    assert_eq!(qty, 7);
    assert_eq!(item.id(), 2);
    assert_eq!(item.value(), 12);
    assert_eq!(item.base_quality(), Some(3));
    assert_eq!(item.hazard_filter().unwrap().cutoff_quality, 3);
    assert_eq!(*item.centering_transform(), Transformation::empty());
    assert_eq!(item.shape().points, vec![Point(0, 0), Point(30, 0), Point(30, 40), Point(0, 40)]);
    assert!(item.shape().surrogate.is_some());
    let (plain, _) = p.parse_item(&rect_item(30, 40, 1), 0).unwrap();
    assert_eq!(plain.value(), 0);
    assert_eq!(plain.base_quality(), None);
    assert!(plain.hazard_filter().is_none());
    let copy = plain.clone_with_id(9);
    assert_eq!(copy.id(), 9);
    assert_eq!(copy.shape().points, plain.shape().points);
}

#[test]
fn items_that_cannot_be_parsed_say_why() {
    let p = parser(true);
    let mut no_shape = rect_item(30, 30, 1);
    no_shape.shape = None;
    assert_eq!(p.parse_item(&no_shape, 0).unwrap_err(), ParseError::NoShape);
    let mut holes = rect_item(30, 30, 1);
    holes.shape = Some(JsonShape::Polygon(JsonPoly {
        outer: poly(&[(0, 0), (9, 0), (9, 9), (0, 9)]),
        inner: vec![],
    }));
    assert_eq!(p.parse_item(&holes, 0).unwrap_err(), ParseError::UnsupportedShape);
    let mut multi = rect_item(30, 30, 1);
    multi.shape = Some(JsonShape::MultiPolygon(vec![]));
    assert_eq!(p.parse_item(&multi, 0).unwrap_err(), ParseError::UnsupportedShape);
    let mut quality = rect_item(30, 30, 1);
    quality.base_quality = Some(10);
    assert_eq!(p.parse_item(&quality, 0).unwrap_err(), ParseError::QualityOutOfRange);
    assert_eq!(
        p.parse_item(&rect_item(0, 30, 1), 0).unwrap_err(),
        ParseError::InvalidShape(ShapeError::InvalidOutline)
    );
    assert_eq!(
        p.parse_item(&rect_item(1, 1, 1), 0).unwrap_err(),
        ParseError::InvalidShape(ShapeError::Degenerate)
    );
}

#[test]
fn bin_with_holes_and_zones_is_parsed() {
    let p = parser(true);
    let json = JsonBin {
        cost: 3,
        stock: None,
        shape: Some(JsonShape::Polygon(JsonPoly {
            outer: poly(&[(0, 0), (1000, 0), (1000, 1000), (0, 1000)]),
            inner: vec![poly(&[(100, 100), (200, 100), (200, 200), (100, 200)])],
        })),
        zones: vec![
            JsonQualityZone { quality: 3, shape: JsonShape::Rectangle { width: 50, height: 50 } },
            JsonQualityZone {
                quality: 1,
                shape: JsonShape::SimplePolygon(poly(&[(600, 600), (700, 600), (700, 700)])),
            },
            JsonQualityZone { quality: 3, shape: JsonShape::Rectangle { width: 80, height: 20 } },
        ],
    };
    let (bin, stock) = p.parse_bin(&json, 5).unwrap();
    assert_eq!(stock, usize::MAX);
    assert_eq!(bin.id(), 5);
    assert_eq!(bin.pretransform, Transformation::from_translation(-500, -500).unwrap());
    assert_eq!(bin.outer.points[0], Point(-500, -500));
    assert_eq!(bin.holes.len(), 1);
    assert_eq!(bin.holes[0].points[0], Point(-400, -400));
    assert_eq!(bin.double_area(), 2 * (1_000_000 - 10_000));
    assert_eq!(bin.value(), 990_000);
    assert_eq!(bin.quality_zones.len(), 10);
    assert_eq!(bin.quality_zones[3].quality, 3);
    assert_eq!(bin.quality_zones[3].zones.len(), 2);
    assert_eq!(bin.quality_zones[3].zones[0].points[2], Point(-450, -450));
    assert_eq!(bin.quality_zones[3].zones[1].points[2], Point(-420, -480));
    assert_eq!(bin.quality_zones[1].zones.len(), 1);
    assert_eq!(bin.quality_zones[1].zones[0].points[0], Point(100, 100));
    assert!(bin.quality_zones[0].zones.is_empty());
    assert_eq!(bin.generate_hazards().len(), 1 + 1 + 3);
}

#[test]
fn bins_that_cannot_be_parsed_say_why() {
    let p = parser(false);
    let mut zone = rect_bin(100, Some(2));
    zone.zones = vec![JsonQualityZone {
        quality: 10,
        shape: JsonShape::Rectangle { width: 5, height: 5 },
    }];
    assert_eq!(p.parse_bin(&zone, 0).unwrap_err(), ParseError::QualityOutOfRange);
    let mut shape = rect_bin(100, Some(2));
    shape.zones = vec![JsonQualityZone { quality: 1, shape: JsonShape::MultiPolygon(vec![]) }];
    assert_eq!(p.parse_bin(&shape, 0).unwrap_err(), ParseError::UnsupportedShape);
    let mut none = rect_bin(100, Some(2));
    none.shape = None;
    assert_eq!(p.parse_bin(&none, 0).unwrap_err(), ParseError::NoShape);
    let all_hole = JsonBin {
        cost: 0,
        stock: Some(1),
        shape: Some(JsonShape::Polygon(JsonPoly {
            outer: poly(&[(0, 0), (100, 0), (100, 100), (0, 100)]),
            inner: vec![poly(&[(0, 0), (100, 0), (100, 100), (0, 100)])],
        })),
        zones: vec![],
    };
    assert_eq!(p.parse_bin(&all_hole, 0).unwrap_err(), ParseError::NoArea);
    let (bin, stock) = p.parse_bin(&rect_bin(100, Some(2)), 0).unwrap();
    assert_eq!(stock, 2);
    assert_eq!(bin.value(), 10_000);
}

#[test]
fn instance_needs_bins_or_a_strip_and_not_both() {
    let p = parser(true);
    let items = || vec![rect_item(30, 30, 2)];
    assert_eq!(
        p.parse(&instance_of(items(), None, None)).unwrap_err(),
        ParseError::NeitherBinsNorStrip
    );
    assert_eq!(
        p.parse(&instance_of(items(), Some(vec![rect_bin(100, None)]), Some(100))).unwrap_err(),
        ParseError::BothBinsAndStrip
    );
    assert_eq!(
        p.parse(&instance_of(items(), None, Some(0))).unwrap_err(),
        ParseError::InvalidQuantities
    );
    assert_eq!(
        p.parse(&instance_of(vec![rect_item(30, 30, u64::MAX)], None, Some(100))).unwrap_err(),
        ParseError::InvalidQuantities
    );
    let mut bad = CDEConfig::default();
    bad.item_surrogate_config.pole_coverage_goal = 0;
    assert_eq!(
        Parser::new(bad, true).parse(&instance_of(items(), None, Some(100))).unwrap_err(),
        ParseError::InvalidConfig
    );
    match p.parse(&instance_of(items(), None, Some(100))).unwrap() {
        Instance::SP(sp) => {
            assert_eq!(sp.strip_height, 100);
            assert_eq!(sp.items.len(), 1);
            assert_eq!(sp.items[0].1, 2);
        },
        Instance::BP(_) => panic!("a strip was given"),
    }
    match p.parse(&instance_of(items(), Some(vec![rect_bin(100, Some(3))]), None)).unwrap() {
        Instance::BP(bp) => {
            assert_eq!(bp.bins.len(), 1);
            assert_eq!(bp.bins[0].1, 3);
            assert_eq!(bp.bins[0].0.id(), 0);
        },
        Instance::SP(_) => panic!("bins were given"),
    }
}

#[test]
fn first_item_at_fault_is_reported() {
    let p = parser(true);
    let mut second = rect_item(30, 30, 1);
    second.shape = None;
    let mut third = rect_item(30, 30, 1);
    third.base_quality = Some(99);
    let json = instance_of(vec![rect_item(30, 30, 1), second, third], None, Some(100));
    assert_eq!(p.parse(&json).unwrap_err(), ParseError::NoShape);
}

#[test]
fn exchanged_motion_and_motion_of_the_placement_are_converted_exactly() {
    let item_pre = Transformation::from_translation(-150, -150).unwrap();
    let bin_pre = Transformation::from_translation(-500, -400).unwrap();
    let quarter = Rotation { cos: 0, sin: ROT_ONE };
    let placement = DTransformation::new(quarter, (70, -30));
    let abs = internal_to_absolute_transform(&placement, &item_pre, &bin_pre).unwrap();
    assert_eq!(abs, Transformation { cos: 0, sin: ROT_ONE, tx: 150 + 70 + 500, ty: -150 - 30 + 400 });
    let back = absolute_to_internal_transform(&abs.decompose(), &item_pre, &bin_pre).unwrap();
    assert_eq!(back, placement.compose());
    let skew = Transformation { cos: 759_250_125, sin: 759_250_125, tx: 12_345, ty: -54_321 };
    let abs = internal_to_absolute_transform(&skew.decompose(), &item_pre, &bin_pre).unwrap();
    let back = absolute_to_internal_transform(&abs.decompose(), &item_pre, &bin_pre).unwrap();
    assert_eq!(back, skew);
    let far = DTransformation::new(quarter, (TRANSLATION_MAX, 0));
    assert_eq!(internal_to_absolute_transform(&far, &item_pre, &bin_pre), None);
}

#[test]
fn motions_compose_and_invert() {
    let quarter = Transformation { cos: 0, sin: ROT_ONE, tx: 10, ty: 0 };
    assert_eq!(quarter.apply(&Point(5, 0)), (10, 5));
    let half = quarter.transform(&quarter).unwrap();
    assert_eq!(half, Transformation { cos: -ROT_ONE, sin: 0, tx: 10, ty: 10 });
    assert_eq!(half.apply(&Point(5, 0)), (5, 10));
    let inv = quarter.inverse().unwrap();
    assert_eq!(inv, Transformation { cos: 0, sin: -ROT_ONE, tx: 0, ty: 10 });
    assert_eq!(quarter.transform(&inv).unwrap(), Transformation::empty());
    assert_eq!(Transformation::from_translation(TRANSLATION_MAX + 1, 0), None);
    let d = quarter.decompose();
    assert_eq!(d.compose(), quarter);
    assert_eq!(Transformation::empty().transform_from_decomposed(&d), Some(quarter));
    let eighth = Transformation { cos: 759_250_125, sin: 759_250_125, tx: 0, ty: 0 };
    assert_eq!(eighth.apply(&Point(1000, 0)), (707, 707));
    assert_eq!(eighth.apply(&Point(-1000, 0)), (-707, -707));
}

fn two_squares_instance() -> JsonInstance {
    instance_of(vec![rect_item(300, 300, 2)], None, Some(1000))
}

fn strip_layout(placed: &[(i64, i64)]) -> JsonLayout {
    JsonLayout {
        container: JsonContainer::Strip { width: 1200, height: 1000 },
        placed_items: placed
            .iter()
            .map(|(x, y)| JsonPlacedItem { index: 0, transformation: no_rotation(*x, *y) })
            .collect(),
        statistics: JsonLayoutStats { usage: Usage { used: 0, total: 1 } },
    }
}

#[test]
fn exchanged_strip_solution_is_built_and_composed_back() {
    let p = parser(true);
    let layouts = vec![strip_layout(&[(150, 150), (460, 150)])];
    let (instance, solution) =
        p.parse_and_build_solution(&two_squares_instance(), &layouts, 5_000).unwrap().unwrap();
    assert_eq!(solution.n_items_placed(), 2);
    assert!(solution.is_complete(&instance));
    assert_eq!(solution.usage(), Usage { used: 2 * 180_000, total: 2 * 1_200_000 });
    let json = compose_json_solution(&solution, &instance, 2_500).unwrap();
    assert_eq!(json.run_time_sec, 2);
    assert_eq!(json.usage, solution.usage());
    assert_eq!(json.layouts.len(), 1);
    assert_eq!(json.layouts[0].container, layouts[0].container);
    assert_eq!(json.layouts[0].placed_items, layouts[0].placed_items);
    assert_eq!(json.layouts[0].statistics.usage, solution.usage());
    let early = compose_json_solution(&solution, &instance, 9_000).unwrap();
    assert_eq!(early.run_time_sec, 0);
    let again = build_solution_from_json(&instance, &json.layouts, config(), 0).unwrap();
    let twice = compose_json_solution(&again, &instance, 0).unwrap();
    assert_eq!(twice.layouts[0].placed_items, json.layouts[0].placed_items);
    assert_eq!(twice.usage, json.usage);
}

fn bin_layout(index: usize, placed: &[(usize, i64, i64)]) -> JsonLayout {
    JsonLayout {
        container: JsonContainer::Bin { index },
        placed_items: placed
            .iter()
            .map(|(i, x, y)| JsonPlacedItem { index: *i, transformation: no_rotation(*x, *y) })
            .collect(),
        statistics: JsonLayoutStats { usage: Usage { used: 0, total: 1 } },
    }
}

#[test]
fn exchanged_bin_solution_is_built_and_composed_back() {
    let p = parser(true);
    let tri = JsonItem {
        demand: 2,
        dxf: None,
        value: None,
        base_quality: None,
        allowed_orientations: None,
        shape: Some(JsonShape::SimplePolygon(poly(&[(0, 0), (300, 0), (0, 300)]))),
    };
    let json_instance = instance_of(
        vec![rect_item(200, 200, 3), tri],
        Some(vec![rect_bin(1000, Some(1)), rect_bin(500, Some(2))]),
        None,
    );
    let layouts = vec![
        bin_layout(1, &[(0, 50, 50)]),
        bin_layout(0, &[(1, 100, 100), (0, 600, 600), (1, 500, 100)]),
    ];
    let (instance, solution) =
        p.parse_and_build_solution(&json_instance, &layouts, 0).unwrap().unwrap();
    assert_eq!(solution.placed_item_qtys(), &vec![2, 2]);
    assert_eq!(solution.bin_qtys(), &vec![0, 1]);
    assert_eq!(solution.layout_snapshots().len(), 2);
    assert_eq!(solution.layout_snapshots()[0].bin().id(), 1);
    let json = compose_json_solution(&solution, &instance, 0).unwrap();
    assert_eq!(json.layouts[0].container, JsonContainer::Bin { index: 1 });
    assert_eq!(json.layouts[0].placed_items, layouts[0].placed_items);
    assert_eq!(json.layouts[1].placed_items, layouts[1].placed_items);
    assert_eq!(
        json.layouts[0].statistics.usage,
        Usage { used: 2 * 40_000, total: 2 * 250_000 }
    );
    assert_eq!(
        json.usage,
        Usage { used: 2 * (40_000 + 45_000 + 40_000 + 45_000), total: 2 * 1_250_000 }
    );
}

#[test]
fn layouts_that_cannot_be_built_say_why() {
    let p = parser(true);
    let strip = p.parse(&two_squares_instance()).unwrap();
    let build = |layouts: &[JsonLayout]| build_solution_from_json(&strip, layouts, config(), 0);
    assert_eq!(build(&[]).unwrap_err(), BuildError::NotOneLayout);
    assert_eq!(build(&[bin_layout(0, &[(0, 1, 1)])]).unwrap_err(), BuildError::WrongContainer);
    assert_eq!(
        build(&[strip_layout(&[(150, 150), (150, 150)])]).unwrap_err(),
        BuildError::Rejected(Rejection::Collision)
    );
    assert_eq!(
        build(&[strip_layout(&[(150, 150), (460, 150), (770, 150)])]).unwrap_err(),
        BuildError::Rejected(Rejection::QuantityExhausted)
    );
    let mut unknown = strip_layout(&[(150, 150)]);
    unknown.placed_items[0].index = 3;
    assert_eq!(build(&[unknown]).unwrap_err(), BuildError::UnknownItem);
    let mut far = strip_layout(&[(150, 150)]);
    far.placed_items[0].transformation.translation = Point(i64::MAX, 0);
    assert_eq!(build(&[far]).unwrap_err(), BuildError::OutOfRange);
    let bins = p
        .parse(&instance_of(vec![rect_item(200, 200, 3)], Some(vec![rect_bin(1000, Some(1))]), None))
        .unwrap();
    let build = |layouts: &[JsonLayout]| build_solution_from_json(&bins, layouts, config(), 0);
    assert_eq!(build(&[strip_layout(&[(150, 150)])]).unwrap_err(), BuildError::WrongContainer);
    assert_eq!(build(&[bin_layout(4, &[(0, 1, 1)])]).unwrap_err(), BuildError::UnknownBin);
    assert_eq!(build(&[bin_layout(0, &[])]).unwrap_err(), BuildError::EmptyLayout);
    assert_eq!(
        build(&[bin_layout(0, &[(0, 300, 300)]), bin_layout(0, &[(0, 300, 300)])]).unwrap_err(),
        BuildError::Rejected(Rejection::NoStock)
    );
    assert!(build(&[bin_layout(0, &[(0, 300, 300)])]).is_ok());
}

#[test]
fn senders_are_answered_by_what_they_sent() {
    assert_eq!(reply_to(true, 0), Reply::Empty);
    assert_eq!(reply_to(true, 3), Reply::Empty);
    assert_eq!(reply_to(false, 0), Reply::NoSolution);
    assert_eq!(reply_to(false, 2), Reply::Found);
    assert!(InputData { json_str: String::new() }.is_empty());
    assert!(!InputData { json_str: String::from("{}") }.is_empty());
    assert!(Json { json_str: String::new() }.is_empty());
    assert!(!Json { json_str: String::from(" ") }.is_empty());
}

#[test]
fn strip_without_width_builds_nothing() {
    let p = parser(true);
    let strip = p.parse(&two_squares_instance()).unwrap();
    let mut layout = strip_layout(&[(150, 150)]);
    layout.container = JsonContainer::Strip { width: 0, height: 1000 };
    assert_eq!(
        build_solution_from_json(&strip, &[layout], config(), 0).unwrap_err(),
        BuildError::Strip(BinError::NoArea)
    );
}

#[test]
fn solution_of_another_instance_cannot_be_composed() {
    let p = parser(true);
    let layouts = vec![strip_layout(&[(150, 150)])];
    let (_, solution) =
        p.parse_and_build_solution(&two_squares_instance(), &layouts, 0).unwrap().unwrap();
    let other = p.parse(&instance_of(vec![], None, Some(1000))).unwrap();
    assert_eq!(
        compose_json_solution(&solution, &other, 0).unwrap_err(),
        ComposeError::UnknownItem
    );
}

#[test]
fn building_stops_at_the_first_item_that_cannot_be_placed() {
    let p = parser(true);
    let strip = p.parse(&two_squares_instance()).unwrap();
    let build = |layouts: &[JsonLayout]| build_solution_from_json(&strip, layouts, config(), 0);
    let mut unknown_first = strip_layout(&[(150, 150), (150, 150)]);
    unknown_first.placed_items[0].index = 3;
    assert_eq!(build(&[unknown_first]).unwrap_err(), BuildError::UnknownItem);
    let mut collision_first = strip_layout(&[(150, 150), (150, 150), (460, 150)]);
    collision_first.placed_items[2].index = 3;
    assert_eq!(
        build(&[collision_first]).unwrap_err(),
        BuildError::Rejected(Rejection::Collision)
    );
    let bins = p
        .parse(&instance_of(vec![rect_item(200, 200, 3)], Some(vec![rect_bin(1000, Some(2))]), None))
        .unwrap();
    let build = |layouts: &[JsonLayout]| build_solution_from_json(&bins, layouts, config(), 0);
    assert_eq!(
        build(&[bin_layout(0, &[(0, 300, 300)]), bin_layout(0, &[])]).unwrap_err(),
        BuildError::EmptyLayout
    );
    assert_eq!(
        build(&[bin_layout(0, &[(0, 300, 300), (0, 300, 300)]), bin_layout(7, &[(0, 300, 300)])])
            .unwrap_err(),
        BuildError::Rejected(Rejection::Collision)
    );
}
