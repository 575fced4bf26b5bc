use jagua_rs::collision_detection::hazard::{Hazard, HazardEntity};
use jagua_rs::collision_detection::hpg::hazard_proximity_grid::HazardProximityGrid;
use jagua_rs::collision_detection::hpg::hpg_cell::{
    distance_to_surrogate_poles_border, HPGCell, HPGCellUpdate, HazardRejected,
};
use jagua_rs::entities::item::Item;
use jagua_rs::geometry::aa_rectangle::AARectangle;
use jagua_rs::geometry::circle::Circle;
use jagua_rs::geometry::geo_enums::AllowedRotation;
use jagua_rs::geometry::point::Point;
use jagua_rs::geometry::simple_polygon::SimplePolygon;
use jagua_rs::geometry::transformation::Transformation;
use jagua_rs::util::config::SPSurrogateConfig;

fn rect(x0: i64, y0: i64, x1: i64, y1: i64) -> SimplePolygon {
    SimplePolygon::new(vec![Point(x0, y0), Point(x1, y0), Point(x1, y1), Point(x0, y1)]).unwrap()
}

fn with_surrogate(mut p: SimplePolygon) -> SimplePolygon {
    p.generate_surrogate(SPSurrogateConfig::default());
    p
}

fn bin_exterior() -> Hazard {
    Hazard::new(HazardEntity::BinExterior, rect(0, 0, 1000, 1000))
}

fn placed(id: usize, x0: i64, y0: i64, x1: i64, y1: i64) -> Hazard {
    Hazard::new(HazardEntity::PlacedItem { id }, with_surrogate(rect(x0, y0, x1, y1)))
}

fn middle_cell() -> HPGCell {
    HPGCell::new(AARectangle::new(480, 480, 520, 520).unwrap(), &[bin_exterior()])
}

#[test]
fn new_cell_knows_the_distance_to_the_bin_border() {
    let cell = middle_cell();
    assert_eq!(cell.centroid(), Point(500, 500));
    assert_eq!(cell.radius(), 29);
    assert_eq!(cell.bin_haz_prox(), 500);
    assert_eq!(*cell.universal_hazard_proximity(), (500, HazardEntity::BinExterior));
    assert_eq!(*cell.static_uni_haz_prox(), (500, HazardEntity::BinExterior));
    assert_eq!(cell.qz_haz_prox(), [i64::MAX; 10]);
}

#[test]
fn cell_outside_the_bin_has_no_room() {
    let hole = Hazard::new(HazardEntity::BinHole { id: 0 }, rect(400, 400, 600, 600));
    let cell = HPGCell::new(
        AARectangle::new(480, 480, 520, 520).unwrap(),
        &[bin_exterior(), hole],
    );
    assert_eq!(*cell.universal_hazard_proximity(), (0, HazardEntity::BinHole { id: 0 }));
}

#[test]
fn quality_zones_are_kept_by_quality() {
    let zone = Hazard::new(
        HazardEntity::InferiorQualityZone { quality: 3, id: 0 },
        rect(0, 0, 400, 400),
    );
    let cell = HPGCell::new(
        AARectangle::new(480, 480, 520, 520).unwrap(),
        &[bin_exterior(), zone],
    );
    let qz = cell.qz_haz_prox();
    assert_eq!(qz[3], 142);
    assert_eq!(qz[2], i64::MAX);
    assert_eq!(cell.hazard_proximity(Some(3)), 500);
    assert_eq!(cell.hazard_proximity(Some(4)), 142);
    assert_eq!(cell.hazard_proximity(None), 142);
    assert_eq!(cell.hazard_proximity(Some(0)), 500);
}

#[test]
fn nearer_hazard_takes_over_the_cell() {
    let mut cell = middle_cell();
    let item = placed(7, 600, 450, 700, 550);
    assert_eq!(cell.register_hazard(&item), Ok(HPGCellUpdate::Affected));
    let (prox, entity) = *cell.universal_hazard_proximity();
    assert_eq!(entity, HazardEntity::PlacedItem { id: 7 });
    assert_eq!(prox, 100);
    assert_eq!(cell.bin_haz_prox(), 500);
}

#[test]
fn farther_hazard_leaves_the_cell_alone() {
    let mut cell = middle_cell();
    assert_eq!(cell.register_hazard(&placed(1, 520, 450, 620, 550)), Ok(HPGCellUpdate::Affected));
    let before = *cell.universal_hazard_proximity();
    assert_eq!(cell.register_hazard(&placed(2, 560, 450, 660, 550)), Ok(HPGCellUpdate::NotAffected));
    assert_eq!(*cell.universal_hazard_proximity(), before);
    assert_eq!(
        cell.register_hazard(&placed(3, 850, 450, 950, 550)),
        Ok(HPGCellUpdate::NeighborsNotAffected)
    );
    assert_eq!(*cell.universal_hazard_proximity(), before);
}

#[test]
fn hazards_that_cannot_be_registered_are_rejected() {
    let mut cell = middle_cell();
    let before = cell;
    let zone = Hazard::new(
        HazardEntity::InferiorQualityZone { quality: 1, id: 0 },
        with_surrogate(rect(0, 0, 100, 100)),
    );
    assert_eq!(cell.register_hazard(&zone), Err(HazardRejected::NotUniversal));
    assert_eq!(cell.register_hazard(&bin_exterior()), Err(HazardRejected::ExteriorForbidden));
    let bare = Hazard::new(HazardEntity::BinHole { id: 0 }, rect(0, 0, 100, 100));
    assert_eq!(cell.register_hazard(&bare), Err(HazardRejected::NoSurrogate));
    assert_eq!(cell.universal_hazard_proximity(), before.universal_hazard_proximity());
}

#[test]
fn single_pole_uses_the_tighter_neighbour_bound() {
    let mut cell = middle_cell();
    assert_eq!(cell.register_hazard(&placed(1, 520, 450, 620, 550)), Ok(HPGCellUpdate::Affected));
    let current = cell.universal_hazard_proximity().0;
    let r = cell.radius();
    let h = placed(2, 0, 0, 10, 10);
    let just_inside = Circle::new(Point(500 + current + 4 * r + 10, 500), 10).unwrap();
    let just_outside = Circle::new(Point(500 + current + 4 * r + 11, 500), 10).unwrap();
    assert_eq!(cell.register_hazard_pole(&h, &just_inside), Ok(HPGCellUpdate::NotAffected));
    assert_eq!(
        cell.register_hazard_pole(&h, &just_outside),
        Ok(HPGCellUpdate::NeighborsNotAffected)
    );
    let near = Circle::new(Point(505, 500), 2).unwrap();
    assert_eq!(cell.register_hazard_pole(&h, &near), Ok(HPGCellUpdate::Affected));
    assert_eq!(*cell.universal_hazard_proximity(), (3, HazardEntity::PlacedItem { id: 2 }));
}

#[test]
fn bulk_registration_finds_the_nearest_of_all() {
    let hazards = vec![
        placed(1, 850, 450, 950, 550),
        placed(2, 600, 450, 700, 550),
        placed(3, 100, 100, 200, 200),
    ];
    let mut one_by_one = middle_cell();
    for h in hazards.iter() {
        one_by_one.register_hazard(h).unwrap();
    }
    let mut bulk = middle_cell();
    assert_eq!(bulk.register_hazards(&hazards), Ok(()));
    assert_eq!(bulk.universal_hazard_proximity(), one_by_one.universal_hazard_proximity());
    assert_eq!(bulk.universal_hazard_proximity().1, HazardEntity::PlacedItem { id: 2 });
}

#[test]
fn bulk_registration_skips_inactive_hazards() {
    let mut near = placed(2, 520, 450, 620, 550);
    near.active = false;
    let hazards = vec![near, placed(3, 700, 450, 800, 550)];
    let mut cell = middle_cell();
    assert_eq!(cell.register_hazards(&hazards), Ok(()));
    assert_eq!(cell.universal_hazard_proximity().1, HazardEntity::PlacedItem { id: 3 });
}

#[test]
fn bulk_registration_is_all_or_nothing() {
    let hazards = vec![placed(2, 520, 450, 620, 550), bin_exterior()];
    let mut cell = middle_cell();
    assert_eq!(cell.register_hazards(&hazards), Err(HazardRejected::ExteriorForbidden));
    assert_eq!(*cell.universal_hazard_proximity(), (500, HazardEntity::BinExterior));
}

#[test]
fn deregistering_the_nearest_falls_back_on_the_rest() {
    let near = placed(1, 520, 450, 620, 550);
    let far = placed(2, 700, 450, 800, 550);
    let mut cell = middle_cell();
    cell.register_hazard(&near).unwrap();
    cell.register_hazard(&far).unwrap();
    let remaining = vec![far];
    assert_eq!(
        cell.deregister_hazards(&vec![HazardEntity::PlacedItem { id: 9 }], &remaining),
        Ok(HPGCellUpdate::NotAffected)
    );
    assert_eq!(cell.universal_hazard_proximity().1, HazardEntity::PlacedItem { id: 1 });
    assert_eq!(
        cell.deregister_hazards(&vec![HazardEntity::PlacedItem { id: 1 }], &remaining),
        Ok(HPGCellUpdate::Affected)
    );
    assert_eq!(cell.universal_hazard_proximity().1, HazardEntity::PlacedItem { id: 2 });
    assert_eq!(
        cell.deregister_hazards(&vec![HazardEntity::PlacedItem { id: 2 }], &[]),
        Ok(HPGCellUpdate::Affected)
    );
    assert_eq!(*cell.universal_hazard_proximity(), (500, HazardEntity::BinExterior));
}

#[test]
fn pole_distance_is_zero_inside_a_pole() {
    let cell = middle_cell();
    let poles = [Circle::new(Point(600, 500), 30).unwrap(), Circle::new(Point(510, 500), 20).unwrap()];
    assert_eq!(distance_to_surrogate_poles_border(&cell, &poles), 0);
    assert_eq!(distance_to_surrogate_poles_border(&cell, &poles[..1]), 70);
}

#[test]
fn cell_accommodates_only_items_whose_pole_fits() {
    let mut cell = middle_cell();
    let item = |side: i64| {
        Item::new(
            0,
            rect(0, 0, side, side),
            0,
            AllowedRotation::NoRotation,
            Transformation::empty(),
            None,
            SPSurrogateConfig::default(),
        )
    };
    assert!(cell.could_accommodate_item(&item(20)));
    assert!(cell.could_accommodate_item(&item(1000)));
    assert!(!cell.could_accommodate_item(&item(1060)));
    cell.register_hazard(&placed(1, 520, 450, 620, 550)).unwrap();
    let prox = cell.universal_hazard_proximity().0;
    let r = cell.radius();
    assert!(cell.could_accommodate_item(&item(2 * (prox + r) - 2)));
    assert!(!cell.could_accommodate_item(&item(2 * (prox + r))));
}

#[test]
fn grid_covers_the_box_with_about_as_many_cells_as_asked() {
    let bbox = AARectangle::new(0, 0, 1000, 1000).unwrap();
    let grid = HazardProximityGrid::new(bbox, &[bin_exterior()], 100);
    assert_eq!(grid.cell_side, 100);
    assert_eq!(grid.n_cols, 11);
    assert_eq!(grid.n_rows, 11);
    assert_eq!(grid.cells.len(), 121);
    let cell = grid.cell_for(&Point(250, 730)).unwrap();
    assert_eq!(*cell.bbox(), AARectangle::new(200, 700, 300, 800).unwrap());
    assert!(grid.cell_for(&Point(1001, 5)).is_none());
    assert!(grid.cell_for(&Point(1000, 1000)).is_some());
    let on_a_border = grid.cell_for(&Point(300, 700)).unwrap();
    assert_eq!(*on_a_border.bbox(), AARectangle::new(300, 700, 400, 800).unwrap());
    assert_eq!(*grid.cells[7 * 11 + 3].bbox(), *on_a_border.bbox());
}

#[test]
fn grid_registers_and_deregisters_in_every_cell() {
    let bbox = AARectangle::new(0, 0, 1000, 1000).unwrap();
    let mut grid = HazardProximityGrid::new(bbox, &[bin_exterior()], 100);
    let before: Vec<(i64, HazardEntity)> =
        grid.cells.iter().map(|c| *c.universal_hazard_proximity()).collect();
    let h = placed(4, 400, 400, 600, 600);
    assert_eq!(grid.register_hazard(&h), Ok(()));
    let cell = grid.cell_for(&Point(500, 500)).unwrap();
    assert_eq!(*cell.universal_hazard_proximity(), (0, HazardEntity::PlacedItem { id: 4 }));
    assert_eq!(
        grid.deregister_hazards(&vec![HazardEntity::PlacedItem { id: 4 }], &[]),
        Ok(())
    );
    let after: Vec<(i64, HazardEntity)> =
        grid.cells.iter().map(|c| *c.universal_hazard_proximity()).collect();
    assert_eq!(before, after);
}

#[test]
fn hazard_that_leaves_the_neighbours_alone_does_not_change_them() {
    let near = placed(1, 520, 450, 620, 550);
    let far = placed(3, 850, 450, 950, 550);
    let mut cell = middle_cell();
    assert_eq!(cell.register_hazard(&near), Ok(HPGCellUpdate::Affected));
    assert_eq!(cell.register_hazard(&far), Ok(HPGCellUpdate::NeighborsNotAffected));
    let boxes = [
        AARectangle::new(440, 480, 480, 520).unwrap(),
        AARectangle::new(520, 480, 560, 520).unwrap(),
        AARectangle::new(480, 440, 520, 480).unwrap(),
        AARectangle::new(480, 520, 520, 560).unwrap(),
        AARectangle::new(520, 520, 560, 560).unwrap(),
    ];
    for bbox in boxes {
        let mut neighbor = HPGCell::new(bbox, &[bin_exterior()]);
        neighbor.register_hazard(&near).unwrap();
        let before = *neighbor.universal_hazard_proximity();
        assert!(before.0 <= cell.universal_hazard_proximity().0 + 2 * cell.radius());
        assert!(neighbor.register_hazard(&far).unwrap() != HPGCellUpdate::Affected);
        assert_eq!(*neighbor.universal_hazard_proximity(), before);
    }
}
