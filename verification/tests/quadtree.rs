use jagua_rs::collision_detection::cd_engine::{edge_hits, CDEngine, PlacementStage};
use jagua_rs::collision_detection::hazard::{Hazard, HazardEntity};
use jagua_rs::collision_detection::hazard_filters::combo_haz_filter::CombinedHazardFilter;
use jagua_rs::collision_detection::hazard_filters::hazard_filter::HazardFilter;
use jagua_rs::collision_detection::hazard_filters::qz_haz_filter::QZHazardFilter;
use jagua_rs::collision_detection::quadtree::qt_hazard::{QTHazPresence, QTHazard};
use jagua_rs::collision_detection::quadtree::qt_node::QTNode;
use jagua_rs::geometry::aa_rectangle::AARectangle;
use jagua_rs::geometry::edge::Edge;
use jagua_rs::geometry::point::Point;
use jagua_rs::geometry::simple_polygon::SimplePolygon;
use jagua_rs::io::svg_data_export::{edge_data, quad_tree_data, simple_polygon_data, PathStep};
use jagua_rs::util::config::{CDEConfig, SPSurrogateConfig};

fn rect(x0: i64, y0: i64, x1: i64, y1: i64) -> SimplePolygon {
    SimplePolygon::new(vec![Point(x0, y0), Point(x1, y0), Point(x1, y1), Point(x0, y1)]).unwrap()
}

fn placed(id: usize, x0: i64, y0: i64, x1: i64, y1: i64) -> Hazard {
    let mut shape = rect(x0, y0, x1, y1);
    shape.generate_surrogate(SPSurrogateConfig::default());
    Hazard::new(HazardEntity::PlacedItem { id }, shape)
}

fn edge(x0: i64, y0: i64, x1: i64, y1: i64) -> Edge {
    Edge::new(Point(x0, y0), Point(x1, y1)).unwrap()
}

fn tree() -> QTNode {
    let mut root = QTNode::new(AARectangle::new(0, 0, 1024, 1024).unwrap(), 3);
    root.register_hazard(&Hazard::new(HazardEntity::BinExterior, rect(0, 0, 1024, 1024)));
    root.register_hazard(&placed(1, 100, 100, 200, 200));
    root.register_hazard(&Hazard::new(
        HazardEntity::InferiorQualityZone { quality: 2, id: 0 },
        rect(600, 600, 900, 900),
    ));
    root
}

fn count_nodes(node: &QTNode) -> usize {
    1 + node.children().iter().map(count_nodes).sum::<usize>()
}

#[test]
fn tree_is_full_down_to_its_last_level() {
    let root = tree();
    assert_eq!(count_nodes(&root), 1 + 4 + 16 + 64);
    assert!(root.has_children());
    assert_eq!(root.hazards().len(), 3);
    let q = root.bbox().quadrants();
    for (c, child) in root.children().iter().enumerate() {
        assert_eq!(*child.bbox(), q[c]);
        assert_eq!(child.level, 2);
        assert_eq!(child.hazards().len(), 3);
    }
}

#[test]
fn nodes_know_how_each_hazard_is_present() {
    let root = tree();
    let lower_left = &root.children()[2].children()[2].children()[2];
    assert_eq!(*lower_left.bbox(), AARectangle::new(0, 0, 128, 128).unwrap());
    assert!(matches!(lower_left.hazards()[0].presence, QTHazPresence::Partial(_)));
    match &lower_left.hazards()[1].presence {
        QTHazPresence::Partial(edges) => assert_eq!(edges.len(), 2),
        other => panic!("unexpected {:?}", other),
    }
    assert!(matches!(lower_left.hazards()[2].presence, QTHazPresence::NotPresent));
    let middle = &root.children()[0].children()[2].children()[0];
    assert_eq!(*middle.bbox(), AARectangle::new(640, 640, 768, 768).unwrap());
    assert!(matches!(middle.hazards()[0].presence, QTHazPresence::NotPresent));
    assert!(matches!(middle.hazards()[2].presence, QTHazPresence::Entire));
    let strongest: &QTHazard = middle.strongest(&vec![]).unwrap();
    assert_eq!(strongest.entity, HazardEntity::InferiorQualityZone { quality: 2, id: 0 });
    assert!(middle
        .strongest(&vec![HazardEntity::InferiorQualityZone { quality: 2, id: 0 }])
        .is_none());
    let first = lower_left.strongest(&vec![]).unwrap();
    assert_eq!(first.entity, HazardEntity::BinExterior);
    let second = lower_left.strongest(&vec![HazardEntity::BinExterior]).unwrap();
    assert_eq!(second.entity, HazardEntity::PlacedItem { id: 1 });
}

#[test]
fn search_finds_what_testing_every_edge_finds() {
    let root = tree();
    let hazards = vec![
        Hazard::new(HazardEntity::BinExterior, rect(0, 0, 1024, 1024)),
        placed(1, 100, 100, 200, 200),
        Hazard::new(HazardEntity::InferiorQualityZone { quality: 2, id: 0 }, rect(600, 600, 900, 900)),
    ];
    let all = CombinedHazardFilter::new();
    let low = QZHazardFilter { cutoff_quality: 2 };
    let high = QZHazardFilter { cutoff_quality: 3 };
    let edges = [
        edge(50, 150, 150, 150),
        edge(120, 120, 180, 180),
        edge(300, 300, 500, 400),
        edge(500, 700, 700, 700),
        edge(0, 512, 10, 512),
        edge(1024, 0, 1024, 10),
        edge(200, 200, 300, 300),
        edge(650, 650, 850, 850),
    ];
    for e in edges.iter() {
        assert_eq!(root.collides(e, &all), edge_hits(e, &hazards, &all), "{:?}", e);
        assert_eq!(root.collides(e, &low), edge_hits(e, &hazards, &low), "{:?}", e);
        assert_eq!(root.collides(e, &high), edge_hits(e, &hazards, &high), "{:?}", e);
    }
    assert!(root.collides(&edges[0], &all));
    assert!(!root.collides(&edges[1], &all));
    assert!(!root.collides(&edges[2], &all));
    assert!(root.collides(&edges[3], &high));
    assert!(!root.collides(&edges[3], &low));
    assert!(high.is_relevant(&HazardEntity::InferiorQualityZone { quality: 2, id: 0 }));
    assert!(!low.is_relevant(&HazardEntity::InferiorQualityZone { quality: 2, id: 0 }));
}

#[test]
fn forgotten_hazard_is_found_no_more() {
    let mut root = tree();
    let all = CombinedHazardFilter::new();
    let e = edge(50, 150, 150, 150);
    assert!(root.collides(&e, &all));
    root.deregister_hazard(1);
    assert!(!root.collides(&e, &all));
    assert_eq!(root.hazards().len(), 2);
    assert_eq!(root.children()[3].children()[1].hazards().len(), 2);
    assert_eq!(
        root.hazards()[1].entity,
        HazardEntity::InferiorQualityZone { quality: 2, id: 0 }
    );
}

#[test]
fn combined_filter_asks_every_filter() {
    let low = QZHazardFilter { cutoff_quality: 2 };
    let high = QZHazardFilter { cutoff_quality: 6 };
    let zone = HazardEntity::InferiorQualityZone { quality: 4, id: 0 };
    let none = CombinedHazardFilter::new();
    assert!(none.is_relevant(&zone));
    let one = CombinedHazardFilter::new().add(&high);
    assert!(one.is_relevant(&zone));
    let both = CombinedHazardFilter::new().add(&high).add(&low);
    assert_eq!(both.filters.len(), 2);
    assert!(!both.is_relevant(&zone));
    assert!(both.is_relevant(&HazardEntity::BinExterior));
    assert!(both.is_relevant(&HazardEntity::PlacedItem { id: 3 }));
}

#[test]
fn engine_answers_for_polygons_and_surrogates() {
    let bin = Hazard::new(HazardEntity::BinExterior, rect(0, 0, 1000, 1000));
    let hole = Hazard::new(HazardEntity::BinHole { id: 0 }, rect(400, 400, 600, 600));
    let config = CDEConfig { hpg_n_cells: 25, quadtree_depth: 2, ..CDEConfig::default() };
    let mut cde = CDEngine::new(AARectangle::new(0, 0, 1000, 1000).unwrap(), vec![bin, hole], config);
    let all = CombinedHazardFilter::new();
    let inside_hole = placed(0, 450, 450, 550, 550);
    let free = placed(1, 100, 100, 300, 300);
    let around_hole = placed(2, 350, 350, 650, 650);
    let outside = placed(3, 2000, 2000, 2100, 2100);
    let leaving = placed(4, 900, 900, 1100, 1100);
    assert!(cde.poly_collides(&inside_hole.shape, &all));
    assert!(!cde.poly_collides(&free.shape, &all));
    assert!(cde.poly_collides(&around_hole.shape, &all));
    assert!(cde.poly_collides(&outside.shape, &all));
    assert!(cde.poly_collides(&leaving.shape, &all));
    assert!(cde.surrogate_collides(inside_hole.shape.surrogate.as_ref().unwrap(), &all));
    assert!(!cde.surrogate_collides(free.shape.surrogate.as_ref().unwrap(), &all));
    assert!(cde.surrogate_collides(leaving.shape.surrogate.as_ref().unwrap(), &all));
    cde.register_hazard(placed(7, 100, 100, 300, 300));
    assert!(cde.poly_collides(&free.shape, &all));
    assert!(cde.poly_collides(&placed(8, 150, 150, 250, 250).shape, &all));
    assert!(cde.poly_collides(&placed(8, 50, 50, 350, 350).shape, &all));
    assert!(!cde.poly_collides(&placed(8, 310, 100, 390, 300).shape, &all));
    assert_eq!(cde.quadtree.hazards().len(), 3);
    let removed = cde.deregister_hazard(0);
    assert_eq!(removed.entity, HazardEntity::PlacedItem { id: 7 });
    assert!(!cde.poly_collides(&free.shape, &all));
    assert_eq!(cde.quadtree.hazards().len(), 2);
}

fn around(x0: i64, y0: i64, x1: i64, y1: i64) -> Vec<PathStep> {
    vec![
        PathStep::MoveTo(Point(x0, y0)),
        PathStep::LineTo(Point(x1, y0)),
        PathStep::LineTo(Point(x1, y1)),
        PathStep::LineTo(Point(x0, y1)),
        PathStep::Close,
    ]
}

#[test]
fn polygon_and_edge_are_drawn_vertex_by_vertex() {
    let p = SimplePolygon::new(vec![Point(0, 0), Point(4, 0), Point(0, 3)]).unwrap();
    assert_eq!(
        simple_polygon_data(&p),
        vec![
            PathStep::MoveTo(Point(0, 0)),
            PathStep::LineTo(Point(4, 0)),
            PathStep::LineTo(Point(0, 3)),
            PathStep::Close,
        ]
    );
    assert_eq!(
        edge_data(&edge(1, 2, 3, 4)),
        vec![PathStep::MoveTo(Point(1, 2)), PathStep::LineTo(Point(3, 4))]
    );
}

#[test]
fn tree_is_drawn_leaf_by_leaf_where_a_hazard_is_present() {
    let mut root = QTNode::new(AARectangle::new(0, 0, 1024, 1024).unwrap(), 1);
    root.register_hazard(&placed(1, 100, 100, 200, 200));
    let (entire, partial, free) = quad_tree_data(&root, &vec![]);
    assert_eq!(entire, vec![]);
    assert_eq!(partial, around(0, 0, 512, 512));
    let mut rest = around(512, 512, 1024, 1024);
    rest.extend(around(0, 512, 512, 1024));
    rest.extend(around(512, 0, 1024, 512));
    assert_eq!(free, rest);
}

#[test]
fn tree_without_a_hazard_that_matters_is_drawn_as_one_box() {
    let mut root = QTNode::new(AARectangle::new(0, 0, 1024, 1024).unwrap(), 1);
    root.register_hazard(&placed(1, 100, 100, 200, 200));
    let (entire, partial, free) =
        quad_tree_data(&root, &vec![HazardEntity::PlacedItem { id: 1 }]);
    assert_eq!(entire, vec![]);
    assert_eq!(partial, vec![]);
    assert_eq!(free, around(0, 0, 1024, 1024));
}

#[test]
fn boxes_outside_the_bin_are_drawn_as_filled() {
    let mut root = QTNode::new(AARectangle::new(0, 0, 1024, 1024).unwrap(), 1);
    root.register_hazard(&Hazard::new(HazardEntity::BinExterior, rect(0, 0, 400, 400)));
    let (entire, partial, free) = quad_tree_data(&root, &vec![]);
    let mut filled = around(512, 512, 1024, 1024);
    filled.extend(around(0, 512, 512, 1024));
    filled.extend(around(512, 0, 1024, 512));
    assert_eq!(entire, filled);
    assert_eq!(partial, around(0, 0, 512, 512));
    assert_eq!(free, vec![]);
}

fn only_poi(x0: i64, y0: i64, x1: i64, y1: i64) -> SimplePolygon {
    let mut shape = rect(x0, y0, x1, y1);
    shape.generate_surrogate(SPSurrogateConfig {
        pole_coverage_goal: 1,
        max_poles: 0,
        n_ff_poles: 1,
        n_ff_piers: 0,
    });
    shape
}

#[test]
fn candidates_are_tested_from_the_cheapest_stage_to_the_exact_one() {
    let hazards = || {
        vec![
            Hazard::new(HazardEntity::BinExterior, rect(0, 0, 1000, 1000)),
            Hazard::new(HazardEntity::BinHole { id: 0 }, rect(400, 400, 600, 600)),
        ]
    };
    let bbox = AARectangle::new(0, 0, 1000, 1000).unwrap();
    let coarse = CDEngine::new(
        bbox,
        hazards(),
        CDEConfig { hpg_n_cells: 25, quadtree_depth: 2, ..CDEConfig::default() },
    );
    let fine = CDEngine::new(
        bbox,
        hazards(),
        CDEConfig { hpg_n_cells: 10_000, quadtree_depth: 2, ..CDEConfig::default() },
    );
    let all = CombinedHazardFilter::new();
    let free = only_poi(100, 100, 300, 300);
    let in_hole = only_poi(450, 450, 550, 550);
    let corner_in_hole = only_poi(300, 300, 410, 410);
    assert_eq!(free.surrogate.as_ref().unwrap().poles.len(), 1);
    assert_eq!(coarse.rejecting_stage(&free, None, &all), None);
    assert_eq!(fine.rejecting_stage(&free, None, &all), None);
    assert_eq!(
        coarse.rejecting_stage(&in_hole, None, &all),
        Some(PlacementStage::SurrogateCheck)
    );
    assert_eq!(fine.rejecting_stage(&in_hole, None, &all), Some(PlacementStage::HpgFilter));
    assert_eq!(
        coarse.rejecting_stage(&corner_in_hole, None, &all),
        Some(PlacementStage::ExactCheck)
    );
    assert_eq!(
        fine.rejecting_stage(&corner_in_hole, None, &all),
        Some(PlacementStage::ExactCheck)
    );
}

#[test]
fn engine_forgets_a_hazard_by_its_entity() {
    let bin = Hazard::new(HazardEntity::BinExterior, rect(0, 0, 1000, 1000));
    let config = CDEConfig { hpg_n_cells: 25, quadtree_depth: 2, ..CDEConfig::default() };
    let mut cde = CDEngine::new(AARectangle::new(0, 0, 1000, 1000).unwrap(), vec![bin], config);
    let all = CombinedHazardFilter::new();
    cde.register_hazard(placed(7, 100, 100, 300, 300));
    cde.register_hazard(placed(8, 600, 600, 800, 800));
    let probe = placed(0, 150, 150, 250, 250);
    assert!(cde.poly_collides(&probe.shape, &all));
    let removed = cde.deregister(&HazardEntity::PlacedItem { id: 7 });
    assert_eq!(removed.entity, HazardEntity::PlacedItem { id: 7 });
    assert!(!cde.poly_collides(&probe.shape, &all));
    assert!(cde.poly_collides(&placed(0, 650, 650, 750, 750).shape, &all));
    assert_eq!(cde.dynamic_hazards.len(), 1);
    assert_eq!(cde.dynamic_hazards[0].entity, HazardEntity::PlacedItem { id: 8 });
}
