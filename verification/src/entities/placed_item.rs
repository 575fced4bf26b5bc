//! An item as it lies in a layout.

use vstd::prelude::*;
use crate::collision_detection::hazard::HazardEntity;
use crate::collision_detection::hazard_filters::hazard_filter::HazardFilter;
use crate::collision_detection::hazard_filters::qz_haz_filter::QZHazardFilter;
use crate::entities::item::Item;
use crate::entities::quality_zone::N_QUALITIES;
use crate::geometry::simple_polygon::{
    moved_points,
    polygon_defect,
    PolygonView,
    ShapeError,
    SimplePolygon,
};
use crate::geometry::transformation::{DTransformation, Transformation};
use crate::util::config::SPSurrogateConfig;

verus! {

/// The identifier of a placed item in its layout. It is given once and
/// stays with the item as long as the item lies there.
#[derive(Clone, Copy, Debug, PartialEq, Eq, Structural, Hash)]
pub struct PlacedItemUID(pub usize);

/// An item of the catalogue, moved to its place.
#[derive(Debug)]
pub struct PlacedItem {
    pub item_id: usize,
    /// The motion that took the item's shape to its place.
    pub d_transf: DTransformation,
    /// The item's shape at its place.
    pub shape: SimplePolygon,
    pub uid: PlacedItemUID,
    /// The base quality of the item.
    pub base_quality: Option<usize>,
}

/// What a placed item holds, as mathematical values.
pub struct PlacedItemView {
    pub item_id: usize,
    pub d_transf: DTransformation,
    pub shape: PolygonView,
    pub uid: PlacedItemUID,
    pub base_quality: Option<usize>,
}

impl View for PlacedItem {
    type V = PlacedItemView;

    open spec fn view(&self) -> PlacedItemView {
        PlacedItemView {
            item_id: self.item_id,
            d_transf: self.d_transf,
            shape: self.shape@,
            uid: self.uid,
            base_quality: self.base_quality,
        }
    }
}

/// Why an item cannot be moved as asked.
#[derive(Clone, Copy, Debug, PartialEq, Eq, Structural)]
pub enum PlacementDefect {
    /// The motion's values are out of range.
    InvalidTransformation,
    /// The moved vertices are not accepted as a polygon.
    Shape(ShapeError),
}

/// Why the item cannot be moved by the motion, if it cannot.
pub open spec fn placement_defect(item: Item, d_transf: DTransformation) -> Option<PlacementDefect> {
    if !d_transf.spec_compose().wf() {
        Some(PlacementDefect::InvalidTransformation)
    } else {
        match polygon_defect(moved_points(item.shape.points@, d_transf.spec_compose())) {
            Some(e) => Some(PlacementDefect::Shape(e)),
            None => None,
        }
    }
}

/// Whether a hazard matters for an item of the given base quality: every
/// universal hazard does, and a zone does where its quality is below the
/// item's, or the item has none.
pub open spec fn quality_relevant(base_quality: Option<usize>, entity: HazardEntity) -> bool {
    match base_quality {
        Some(q) => (QZHazardFilter { cutoff_quality: q }).spec_is_relevant(entity),
        None => true,
    }
}

impl PlacedItemView {
    /// The shape is a polygon with its surrogate and the quality is a level.
    pub open spec fn wf(self) -> bool {
        &&& self.shape.wf()
        &&& self.shape.surrogate.is_some()
        &&& match self.base_quality {
            Some(q) => q < N_QUALITIES,
            None => true,
        }
    }
}

impl PlacedItem {
    pub open spec fn wf(&self) -> bool {
        self@.wf()
    }

    /// The item moved by `d_transf`, under the given identifier.
    pub fn new(
        item: &Item,
        d_transf: DTransformation,
        uid: PlacedItemUID,
        surrogate_config: SPSurrogateConfig,
    ) -> (r: Result<PlacedItem, PlacementDefect>)
        requires
            item.wf(),
            surrogate_config.wf(),
        ensures
            match r {
                Ok(p) => {
                    &&& placement_defect(*item, d_transf).is_none()
                    &&& p.wf()
                    &&& p.item_id == item.id
                    &&& p.d_transf == d_transf
                    &&& p.uid == uid
                    &&& p.base_quality == item.base_quality
                    &&& p.shape.points@ == moved_points(item.shape.points@, d_transf.spec_compose())
                },
                Err(e) => placement_defect(*item, d_transf) == Some(e),
            },
    {
        let t: Transformation = match Transformation::from_dt(&d_transf) {
            Some(t) => t,
            None => {
                return Err(PlacementDefect::InvalidTransformation);
            },
        };
        match item.shape.transform_clone(&t) {
            Err(e) => Err(PlacementDefect::Shape(e)),
            Ok(shape) => {
                let mut shape = shape;
                shape.generate_surrogate(surrogate_config);
                Ok(
                    PlacedItem {
                        item_id: item.id,
                        d_transf,
                        shape,
                        uid,
                        base_quality: item.base_quality,
                    },
                )
            },
        }
    }

    pub fn item_id(&self) -> (r: usize)
        ensures
            r == self.item_id,
    {
        self.item_id
    }

    pub fn d_transformation(&self) -> (r: &DTransformation)
        ensures
            *r == self.d_transf,
    {
        &self.d_transf
    }

    pub fn uid(&self) -> (r: PlacedItemUID)
        ensures
            r == self.uid,
    {
        self.uid
    }

    pub fn shape(&self) -> (r: &SimplePolygon)
        ensures
            r == &self.shape,
    {
        &self.shape
    }

    /// A copy of the placed item.
    pub fn clone_placed(&self) -> (r: PlacedItem)
        ensures
            r@ == self@,
    {
        PlacedItem {
            item_id: self.item_id,
            d_transf: self.d_transf,
            shape: self.shape.clone_polygon(),
            uid: self.uid,
            base_quality: self.base_quality,
        }
    }
}

} // verus!
