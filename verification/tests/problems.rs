use jagua_rs::collision_detection::hazard::HazardEntity;
use jagua_rs::entities::bin::Bin;
use jagua_rs::entities::instances::bin_packing::BPInstance;
use jagua_rs::entities::instances::instance::Instance;
use jagua_rs::entities::instances::strip_packing::SPInstance;
use jagua_rs::entities::item::Item;
use jagua_rs::entities::layout::{Layout, PlaceRejected, Usage};
use jagua_rs::entities::placed_item::{PlacedItemUID, PlacementDefect};
use jagua_rs::entities::placing_option::PlacingOption;
use jagua_rs::entities::problems::bin_packing::BPProblem;
use jagua_rs::entities::problems::problem::{
    LayoutIndex, PlaceResult, Problem, ProblemPrivate, ProblemType, Rejection, RemoveRejected,
};
use jagua_rs::entities::problems::strip_packing::{strip_layout_index, SPProblem, StripRejected};
use jagua_rs::entities::quality_zone::InferiorQualityZone;
use jagua_rs::geometry::geo_enums::AllowedRotation;
use jagua_rs::geometry::point::Point;
use jagua_rs::geometry::simple_polygon::{ShapeError, SimplePolygon};
use jagua_rs::geometry::transformation::{DTransformation, Rotation, Transformation, ROT_ONE};
use jagua_rs::util::config::{CDEConfig, SPSurrogateConfig};

const UNIT: i64 = 100;

fn config() -> CDEConfig {
    CDEConfig { hpg_n_cells: 100, ..CDEConfig::default() }
}

fn rect(x0: i64, y0: i64, x1: i64, y1: i64) -> SimplePolygon {
    SimplePolygon::new(vec![Point(x0, y0), Point(x1, y0), Point(x1, y1), Point(x0, y1)]).unwrap()
}

fn square_item(id: usize, side: i64, base_quality: Option<usize>) -> Item {
    Item::new(
        id,
        rect(0, 0, side, side),
        1,
        AllowedRotation::NoRotation,
        Transformation::empty(),
        base_quality,
        SPSurrogateConfig::default(),
    )
}

fn disk_item(id: usize, radius: i64) -> Item {
    let dirs: [(i64, i64); 16] = [
        (1000, 0),
        (924, 383),
        (707, 707),
        (383, 924),
        (0, 1000),
        (-383, 924),
        (-707, 707),
        (-924, 383),
        (-1000, 0),
        (-924, -383),
        (-707, -707),
        (-383, -924),
        (0, -1000),
        (383, -924),
        (707, -707),
        (924, -383),
    ];
    let points = dirs.iter().map(|(c, s)| Point(c * radius / 1000, s * radius / 1000)).collect();
    Item::new(
        id,
        SimplePolygon::new(points).unwrap(),
        1,
        AllowedRotation::Continuous,
        Transformation::empty(),
        None,
        SPSurrogateConfig::default(),
    )
}

fn plain_bin(id: usize, side: i64) -> Bin {
    Bin::new(id, rect(0, 0, side, side), 5, Transformation::empty(), vec![], vec![]).unwrap()
}

fn translation(x: i64, y: i64) -> Transformation {
    Transformation::from_translation(x, y).unwrap()
}

fn at(layout_index: LayoutIndex, item_id: usize, x: i64, y: i64) -> PlacingOption {
    PlacingOption::new(layout_index, item_id, translation(x, y))
}

fn two_squares_in_a_strip() -> SPProblem {
    let instance = SPInstance::new(vec![(square_item(0, 3 * UNIT, None), 2)], 10 * UNIT).unwrap();
    SPProblem::new(instance, 12 * UNIT, config()).unwrap()
}

#[test]
fn strip_takes_a_square_and_rejects_one_on_top_of_it() {
    let mut p = two_squares_in_a_strip();
    let strip = strip_layout_index();
    let first = p.place_item(&at(strip, 0, 150, 150));
    assert_eq!(first, PlaceResult::Placed(strip, PlacedItemUID(0)));
    assert_eq!(p.missing_item_qtys(), &vec![1]);
    let second = p.place_item(&at(strip, 0, 150, 150));
    assert_eq!(second, PlaceResult::Rejected(Rejection::Collision));
    assert_eq!(p.missing_item_qtys(), &vec![1]);
    assert_eq!(p.layouts()[0].placed_items().len(), 1);
    let third = p.place_item(&at(strip, 0, 460, 150));
    assert_eq!(third, PlaceResult::Placed(strip, PlacedItemUID(1)));
    assert_eq!(p.missing_item_qtys(), &vec![0]);
    let usage = p.usage();
    assert_eq!(usage, Usage { used: 2 * (9 + 9) * 10_000, total: 2 * 12 * 10 * 10_000 });
    let share = usage.used as f64 / usage.total as f64;
    assert!((share - (9.0 + 9.0) / (12.0 * 10.0)).abs() < 1e-12);
}

#[test]
fn strip_rejects_more_copies_than_demanded() {
    let mut p = two_squares_in_a_strip();
    let strip = strip_layout_index();
    assert!(matches!(p.place_item(&at(strip, 0, 10, 10)), PlaceResult::Placed(_, _)));
    assert!(matches!(p.place_item(&at(strip, 0, 400, 10)), PlaceResult::Placed(_, _)));
    assert_eq!(
        p.place_item(&at(strip, 0, 800, 10)),
        PlaceResult::Rejected(Rejection::QuantityExhausted)
    );
}

#[test]
fn item_that_touches_the_border_collides() {
    let mut p = two_squares_in_a_strip();
    let strip = strip_layout_index();
    assert_eq!(p.place_item(&at(strip, 0, 0, 0)), PlaceResult::Rejected(Rejection::Collision));
    assert_eq!(p.place_item(&at(strip, 0, 1, 1)), PlaceResult::Placed(strip, PlacedItemUID(0)));
    assert_eq!(
        p.place_item(&at(strip, 0, 301, 1)),
        PlaceResult::Rejected(Rejection::Collision)
    );
    assert_eq!(p.place_item(&at(strip, 0, 302, 1)), PlaceResult::Placed(strip, PlacedItemUID(1)));
}

#[test]
fn strip_rejects_what_it_does_not_know() {
    let mut p = two_squares_in_a_strip();
    let strip = strip_layout_index();
    assert_eq!(p.place_item(&at(strip, 5, 0, 0)), PlaceResult::Rejected(Rejection::InvalidInput));
    assert_eq!(
        p.place_item(&at(LayoutIndex::Existing(1), 0, 0, 0)),
        PlaceResult::Rejected(Rejection::InvalidInput)
    );
    assert_eq!(
        p.place_item(&at(LayoutIndex::Empty(0), 0, 0, 0)),
        PlaceResult::Rejected(Rejection::InvalidInput)
    );
    let bad = PlacingOption {
        layout_index: strip,
        item_id: 0,
        transform: Transformation::empty(),
        d_transform: DTransformation::new(Rotation { cos: 2 * ROT_ONE, sin: 0 }, (0, 0)),
    };
    assert_eq!(p.place_item(&bad), PlaceResult::Rejected(Rejection::InvalidInput));
    assert_eq!(
        p.remove_item(LayoutIndex::Existing(3), &PlacedItemUID(0)).unwrap_err(),
        RemoveRejected::UnknownLayout
    );
    assert_eq!(
        p.remove_item(strip, &PlacedItemUID(0)).unwrap_err(),
        RemoveRejected::UnknownItem
    );
}

#[test]
fn item_that_leaves_the_strip_collides() {
    let mut p = two_squares_in_a_strip();
    let strip = strip_layout_index();
    assert_eq!(
        p.place_item(&at(strip, 0, 1000, 150)),
        PlaceResult::Rejected(Rejection::Collision)
    );
    assert_eq!(
        p.place_item(&at(strip, 0, -100, 150)),
        PlaceResult::Rejected(Rejection::Collision)
    );
    assert_eq!(
        p.place_item(&at(strip, 0, 1500, 150)),
        PlaceResult::Rejected(Rejection::Collision)
    );
}

#[test]
fn rotated_item_is_placed_where_the_rotation_takes_it() {
    let mut p = two_squares_in_a_strip();
    let quarter = Transformation { cos: 0, sin: ROT_ONE, tx: 500, ty: 100 };
    let r = p.place_item(&PlacingOption::new(strip_layout_index(), 0, quarter));
    assert_eq!(r, PlaceResult::Placed(strip_layout_index(), PlacedItemUID(0)));
    let placed = &p.layouts()[0].placed_items()[0];
    assert_eq!(
        placed.shape().points,
        vec![Point(500, 100), Point(500, 400), Point(200, 400), Point(200, 100)]
    );
    assert_eq!(placed.d_transformation().rotation(), Rotation { cos: 0, sin: ROT_ONE });
    assert_eq!(placed.d_transformation().translation(), (500, 100));
}

fn one_bin_one_disk() -> BPProblem {
    let instance = BPInstance::new(
        vec![(disk_item(0, 4 * UNIT), 3)],
        vec![(plain_bin(0, 10 * UNIT), 1)],
    )
    .unwrap();
    BPProblem::new(instance, config())
}

#[test]
fn bin_without_stock_takes_no_second_layout() {
    let mut p = one_bin_one_disk();
    assert!(p.empty_layout_has_stock(0));
    let first = p.place_item(&at(LayoutIndex::Empty(0), 0, 500, 500));
    assert_eq!(first, PlaceResult::Placed(LayoutIndex::Existing(0), PlacedItemUID(0)));
    assert_eq!(p.bin_qtys(), &vec![0]);
    assert_eq!(p.missing_item_qtys(), &vec![2]);
    assert_eq!(p.layouts().len(), 1);
    assert_eq!(p.empty_layouts().len(), 1);
    assert!(p.empty_layouts()[0].is_empty());
    assert!(!p.empty_layout_has_stock(0));
    let second = p.place_item(&at(LayoutIndex::Empty(0), 0, 500, 500));
    assert_eq!(second, PlaceResult::Rejected(Rejection::NoStock));
    assert_eq!(p.layouts().len(), 1);
    assert_eq!(p.missing_item_qtys(), &vec![2]);
    assert_eq!(p.used_bin_value(), 5);
}

#[test]
fn failed_opening_of_a_bin_changes_nothing() {
    let mut p = one_bin_one_disk();
    let r = p.place_item(&at(LayoutIndex::Empty(0), 0, 100, 100));
    assert_eq!(r, PlaceResult::Rejected(Rejection::Collision));
    assert_eq!(p.layouts().len(), 0);
    assert_eq!(p.bin_qtys(), &vec![1]);
    assert_eq!(p.missing_item_qtys(), &vec![3]);
    assert!(p.empty_layouts()[0].is_empty());
}

#[test]
fn emptied_layout_goes_back_to_stock() {
    let mut p = one_bin_one_disk();
    let first = p.place_item(&at(LayoutIndex::Empty(0), 0, 500, 500));
    let uid = match first {
        PlaceResult::Placed(_, uid) => uid,
        PlaceResult::Rejected(r) => panic!("rejected: {:?}", r),
    };
    let removed = p.remove_item(LayoutIndex::Existing(0), &uid).unwrap();
    assert_eq!(removed.item_id(), 0);
    assert_eq!(p.layouts().len(), 0);
    assert_eq!(p.bin_qtys(), &vec![1]);
    assert_eq!(p.missing_item_qtys(), &vec![3]);
    assert_eq!(p.min_usage_layout_index(), None);
    assert_eq!(
        p.remove_item(LayoutIndex::Empty(0), &uid).unwrap_err(),
        RemoveRejected::UnknownLayout
    );
}

fn bin_with_zone() -> BPProblem {
    let zone =
        InferiorQualityZone::new(3, vec![rect(0, 0, 5 * UNIT, 5 * UNIT)]).unwrap();
    let bin = Bin::new(
        0,
        rect(0, 0, 10 * UNIT, 10 * UNIT),
        1,
        Transformation::empty(),
        vec![],
        vec![zone],
    )
    .unwrap();
    let instance = BPInstance::new(
        vec![
            (square_item(0, UNIT, Some(2)), 4),
            (square_item(1, UNIT, Some(5)), 4),
            (square_item(2, UNIT, None), 4),
        ],
        vec![(bin, 4)],
    )
    .unwrap();
    BPProblem::new(instance, config())
}

#[test]
fn zone_forbids_only_items_of_a_higher_quality() {
    let mut p = bin_with_zone();
    assert_eq!(
        p.place_item(&at(LayoutIndex::Empty(0), 0, 200, 200)),
        PlaceResult::Placed(LayoutIndex::Existing(0), PlacedItemUID(0))
    );
    assert_eq!(
        p.place_item(&at(LayoutIndex::Existing(0), 0, 450, 450)),
        PlaceResult::Placed(LayoutIndex::Existing(0), PlacedItemUID(1))
    );
    assert_eq!(
        p.place_item(&at(LayoutIndex::Existing(0), 1, 50, 50)),
        PlaceResult::Rejected(Rejection::Collision)
    );
    assert_eq!(
        p.place_item(&at(LayoutIndex::Existing(0), 1, 450, 300)),
        PlaceResult::Rejected(Rejection::Collision)
    );
    assert_eq!(
        p.place_item(&at(LayoutIndex::Existing(0), 1, 700, 700)),
        PlaceResult::Placed(LayoutIndex::Existing(0), PlacedItemUID(2))
    );
    assert_eq!(
        p.place_item(&at(LayoutIndex::Existing(0), 2, 50, 300)),
        PlaceResult::Rejected(Rejection::Collision)
    );
    assert_eq!(
        p.place_item(&at(LayoutIndex::Existing(0), 2, 700, 300)),
        PlaceResult::Placed(LayoutIndex::Existing(0), PlacedItemUID(3))
    );
}

fn ids_and_places(layout: &Layout) -> Vec<(usize, usize, (i64, i64))> {
    layout
        .placed_items()
        .iter()
        .map(|p| (p.uid().0, p.item_id(), p.d_transformation().translation()))
        .collect()
}

#[test]
fn restoring_a_solution_brings_back_what_was_saved() {
    let instance = BPInstance::new(
        vec![(square_item(0, UNIT, None), 2), (square_item(1, 2 * UNIT, None), 2)],
        vec![(plain_bin(0, 10 * UNIT), 2)],
    )
    .unwrap();
    let mut p = BPProblem::new(instance, config());
    let first = p.place_item(&at(LayoutIndex::Empty(0), 0, 100, 100));
    let i1 = match first {
        PlaceResult::Placed(_, uid) => uid,
        PlaceResult::Rejected(r) => panic!("rejected: {:?}", r),
    };
    assert!(matches!(
        p.place_item(&at(LayoutIndex::Existing(0), 1, 400, 400)),
        PlaceResult::Placed(_, _)
    ));
    let places = ids_and_places(&p.layouts()[0]);
    let missing = p.missing_item_qtys().clone();
    let stock = p.bin_qtys().clone();
    let usage = p.usage();
    let s = p.create_solution(&None, 1234);
    assert_eq!(s.id(), 1);
    assert_eq!(s.time_stamp(), 1234);
    assert_eq!(s.placed_item_qtys(), &vec![1, 1]);
    assert_eq!(s.target_item_qtys(), &vec![2, 2]);
    assert_eq!(s.n_items_placed(), 2);
    assert_eq!(s.usage(), usage);
    assert_eq!(s.usage(), Usage { used: 2 * 5 * 10_000, total: 2 * 100 * 10_000 });

    p.remove_item(LayoutIndex::Existing(0), &i1).unwrap();
    assert_eq!(p.missing_item_qtys(), &vec![2, 1]);
    assert_eq!(p.layouts()[0].placed_items().len(), 1);

    p.restore_to_solution(&s);
    assert_eq!(ids_and_places(&p.layouts()[0]), places);
    assert_eq!(p.missing_item_qtys(), &missing);
    assert_eq!(p.bin_qtys(), &stock);
    assert_eq!(p.usage(), usage);
    assert_eq!(
        p.place_item(&at(LayoutIndex::Existing(0), 0, 100, 100)),
        PlaceResult::Rejected(Rejection::Collision)
    );
    assert_eq!(
        p.place_item(&at(LayoutIndex::Existing(0), 0, 700, 100)),
        PlaceResult::Placed(LayoutIndex::Existing(0), PlacedItemUID(2))
    );
}

#[test]
fn restoring_brings_back_layouts_that_were_emptied() {
    let mut p = one_bin_one_disk();
    let uid = match p.place_item(&at(LayoutIndex::Empty(0), 0, 500, 500)) {
        PlaceResult::Placed(_, uid) => uid,
        PlaceResult::Rejected(r) => panic!("rejected: {:?}", r),
    };
    let s = p.create_solution(&None, 0);
    p.remove_item(LayoutIndex::Existing(0), &uid).unwrap();
    assert_eq!(p.layouts().len(), 0);
    p.restore_to_solution(&s);
    assert_eq!(p.layouts().len(), 1);
    assert_eq!(p.bin_qtys(), &vec![0]);
    assert_eq!(p.missing_item_qtys(), &vec![2]);
    let again = p.create_solution(&Some(s), 9);
    assert_eq!(again.id(), 2);
}

#[test]
fn strip_problem_restores_too() {
    let mut p = two_squares_in_a_strip();
    let strip = strip_layout_index();
    let uid = match p.place_item(&at(strip, 0, 150, 150)) {
        PlaceResult::Placed(_, uid) => uid,
        PlaceResult::Rejected(r) => panic!("rejected: {:?}", r),
    };
    p.place_item(&at(strip, 0, 460, 150));
    let places = ids_and_places(&p.layouts()[0]);
    let s = p.create_solution(&None, 0);
    p.remove_item(strip, &uid).unwrap();
    assert_eq!(p.missing_item_qtys(), &vec![1]);
    p.restore_to_solution(&s);
    assert_eq!(ids_and_places(&p.layouts()[0]), places);
    assert_eq!(p.missing_item_qtys(), &vec![0]);
    assert_eq!(p.strip_width, 12 * UNIT);
}

#[test]
fn solutions_know_how_complete_they_are() {
    let mut p = two_squares_in_a_strip();
    let strip = strip_layout_index();
    p.place_item(&at(strip, 0, 150, 150));
    let half = p.create_solution(&None, 0);
    p.place_item(&at(strip, 0, 460, 150));
    let full = p.create_solution(&None, 0);
    let instance = Instance::SP(
        SPInstance::new(vec![(square_item(0, 3 * UNIT, None), 2)], 10 * UNIT).unwrap(),
    );
    assert!(!half.is_complete(&instance));
    assert!(full.is_complete(&instance));
    assert_eq!(half.missing_item_qtys(&instance), vec![1]);
    assert_eq!(full.missing_item_qtys(&instance), vec![0]);
    assert_eq!(half.completeness(&instance), Usage { used: 180_000, total: 360_000 });
    assert!(!full.is_best_possible(&instance));
    assert_eq!(instance.total_item_qty(), 2);
    assert_eq!(instance.item_area(), 360_000);
}

#[test]
fn one_layout_in_the_cheapest_bin_is_best_possible() {
    let cheap = Bin::new(1, rect(0, 0, 500, 500), 2, Transformation::empty(), vec![], vec![]);
    let bins = vec![(plain_bin(0, 10 * UNIT), 1), (cheap.unwrap(), 1)];
    let items = vec![(square_item(0, UNIT, None), 2)];
    let mut p = BPProblem::new(BPInstance::new(items, bins).unwrap(), config());
    p.place_item(&at(LayoutIndex::Empty(0), 0, 100, 100));
    let dear = p.create_solution(&None, 0);
    p.place_item(&at(LayoutIndex::Empty(1), 0, 100, 100));
    let both = p.create_solution(&None, 0);
    assert_eq!(p.min_usage_layout_index(), Some(0));
    let uid = p.layouts()[0].placed_items()[0].uid();
    p.remove_item(LayoutIndex::Existing(0), &uid).unwrap();
    let cheapest = p.create_solution(&None, 0);
    let instance = Instance::BP(
        BPInstance::new(
            vec![(square_item(0, UNIT, None), 2)],
            vec![
                (plain_bin(0, 10 * UNIT), 1),
                (
                    Bin::new(1, rect(0, 0, 500, 500), 2, Transformation::empty(), vec![], vec![])
                        .unwrap(),
                    1,
                ),
            ],
        )
        .unwrap(),
    );
    assert!(!dear.is_best_possible(&instance));
    assert!(!both.is_best_possible(&instance));
    assert!(cheapest.is_best_possible(&instance));
    assert_eq!(p.used_bin_value(), 2);
    assert_eq!(p.included_item_qtys(), vec![1]);
}

#[test]
fn problem_of_either_kind_answers_alike() {
    let mut p = ProblemType::SP(two_squares_in_a_strip());
    let strip = strip_layout_index();
    assert!(matches!(p.place_item(&at(strip, 0, 150, 150)), PlaceResult::Placed(_, _)));
    assert_eq!(p.missing_item_qtys(), &vec![1]);
    assert_eq!(p.layouts().len(), 1);
    assert!(p.bin_qtys().is_empty());
    assert_eq!(p.next_solution_id(), 1);
    p.register_included_item(0);
    assert_eq!(p.missing_item_qtys(), &vec![0]);
    p.unregister_included_item(0);
    assert_eq!(p.missing_item_qtys(), &vec![1]);
    p.flush_changes();
    let mut q = ProblemType::BP(one_bin_one_disk());
    assert!(matches!(
        q.place_item(&at(LayoutIndex::Empty(0), 0, 500, 500)),
        PlaceResult::Placed(_, _)
    ));
    assert_eq!(q.bin_qtys(), &vec![0]);
}

#[test]
fn layout_rejects_for_the_reason_that_holds() {
    let mut layout = Layout::new(0, plain_bin(0, 10 * UNIT), config());
    let item = square_item(0, 3 * UNIT, None);
    let d = |x: i64, y: i64| translation(x, y).decompose();
    assert_eq!(layout.place(&item, d(100, 100)), Ok(PlacedItemUID(0)));
    assert_eq!(layout.place(&item, d(300, 300)), Err(PlaceRejected::Collision));
    let far = DTransformation::new(Rotation { cos: ROT_ONE, sin: 0 }, (i64::MAX, 0));
    assert_eq!(
        layout.place(&item, far),
        Err(PlaceRejected::Defect(PlacementDefect::InvalidTransformation))
    );
    assert_eq!(layout.place(&item, d(600, 600)), Ok(PlacedItemUID(1)));
    assert!(layout.remove(PlacedItemUID(5)).is_none());
    assert_eq!(layout.remove(PlacedItemUID(0)).unwrap().uid(), PlacedItemUID(0));
    assert_eq!(layout.place(&item, d(100, 100)), Ok(PlacedItemUID(2)));
    assert_eq!(layout.usage(), Usage { used: 2 * 2 * 90_000, total: 2 * 1_000_000 });
    let cell = layout.cde().hpg_cell_for(&Point(250, 250)).unwrap();
    assert_eq!(cell.universal_hazard_proximity().1, HazardEntity::PlacedItem { id: 2 });
}

#[test]
fn strip_can_be_widened_and_narrowed_around_its_items() {
    let mut p = two_squares_in_a_strip();
    let strip = strip_layout_index();
    p.place_item(&at(strip, 0, 150, 150));
    p.place_item(&at(strip, 0, 460, 150));
    let places: Vec<(usize, (i64, i64))> =
        ids_and_places(&p.layouts()[0]).iter().map(|(_, i, t)| (*i, *t)).collect();
    assert_eq!(p.change_strip_width(20 * UNIT), Ok(()));
    assert_eq!(p.strip_width, 20 * UNIT);
    assert_eq!(p.usage(), Usage { used: 2 * 180_000, total: 2 * 2_000_000 });
    let after: Vec<(usize, (i64, i64))> =
        ids_and_places(&p.layouts()[0]).iter().map(|(_, i, t)| (*i, *t)).collect();
    assert_eq!(after, places);
    assert_eq!(p.missing_item_qtys(), &vec![0]);
    assert_eq!(
        p.change_strip_width(7 * UNIT),
        Err(StripRejected::Item(Rejection::Collision))
    );
    assert_eq!(p.strip_width, 20 * UNIT);
    assert_eq!(p.layouts()[0].placed_items().len(), 2);
    assert!(matches!(p.change_strip_width(0), Err(StripRejected::Strip(_))));
    assert_eq!(p.change_strip_width(8 * UNIT), Ok(()));
    assert_eq!(p.strip_width, 8 * UNIT);
}

#[test]
fn layout_that_has_given_out_its_identifiers_takes_no_more() {
    let mut layout = Layout::new(0, plain_bin(0, 10 * UNIT), config());
    let item = square_item(0, 3 * UNIT, None);
    layout.next_uid = usize::MAX;
    assert_eq!(
        layout.place(&item, translation(100, 100).decompose()),
        Err(PlaceRejected::NoCapacity)
    );
    assert!(layout.is_empty());
}

#[test]
fn item_moved_out_of_range_is_no_polygon() {
    let mut layout = Layout::new(0, plain_bin(0, 10 * UNIT), config());
    let item = square_item(0, 3 * UNIT, None);
    assert_eq!(
        layout.place(&item, translation(1 << 30, 0).decompose()),
        Err(PlaceRejected::Defect(PlacementDefect::Shape(ShapeError::InvalidOutline)))
    );
}

#[test]
fn layout_restores_a_snapshot_of_itself() {
    let mut layout = Layout::new(3, plain_bin(0, 10 * UNIT), config());
    let item = square_item(0, 3 * UNIT, None);
    let first = layout.place(&item, translation(100, 100).decompose()).unwrap();
    layout.place(&item, translation(600, 600).decompose()).unwrap();
    let snapshot = layout.create_snapshot();
    assert_eq!(snapshot.usage(), layout.usage());
    assert_eq!(snapshot.bin().id(), 0);
    let before = ids_and_places(&layout);
    layout.remove(first).unwrap();
    layout.place(&item, translation(100, 500).decompose()).unwrap();
    layout.restore(&snapshot);
    assert_eq!(ids_and_places(&layout), before);
    assert_eq!(layout.usage(), snapshot.usage());
    assert_eq!(layout.next_uid, 2);
    assert_eq!(
        layout.place(&item, translation(100, 100).decompose()),
        Err(PlaceRejected::Collision)
    );
    layout.flush_changes();
    assert_eq!(ids_and_places(&layout), before);
}

#[test]
fn layouts_are_found_by_their_index() {
    let mut p = one_bin_one_disk();
    assert!(p.get_layout(LayoutIndex::Empty(0)).is_empty());
    p.place_item(&at(LayoutIndex::Empty(0), 0, 500, 500));
    assert_eq!(p.get_layout(LayoutIndex::Existing(0)).placed_items().len(), 1);
    assert!(p.get_layout(LayoutIndex::Empty(0)).is_empty());
    assert_eq!(p.item(0).id(), 0);
}
