//! The things to be placed.

use vstd::prelude::*;
use crate::collision_detection::hazard_filters::qz_haz_filter::QZHazardFilter;
use crate::entities::quality_zone::N_QUALITIES;
use crate::geometry::fail_fast::poi::spec_additional_poles;
use crate::geometry::geo_enums::{AllowedRotation, AllowedRotationView};
use crate::geometry::simple_polygon::{PolygonView, SimplePolygon};
use crate::geometry::transformation::Transformation;
use crate::util::config::SPSurrogateConfig;

verus! {

/// An item of the catalogue.
#[derive(Debug)]
pub struct Item {
    pub id: usize,
    pub shape: SimplePolygon,
    pub allowed_rotation: AllowedRotation,
    /// The item may not lie in zones of a quality below this one; with no
    /// quality given, in no zone at all.
    pub base_quality: Option<usize>,
    pub value: u64,
    /// The motion that was applied to the shape as it was given.
    pub centering_transform: Transformation,
    pub hazard_filter: Option<QZHazardFilter>,
}

/// What an item holds, as mathematical values.
pub struct ItemView {
    pub id: usize,
    pub shape: PolygonView,
    pub allowed_rotation: AllowedRotationView,
    pub base_quality: Option<usize>,
    pub value: u64,
    pub centering_transform: Transformation,
    pub hazard_filter: Option<QZHazardFilter>,
}

impl View for Item {
    type V = ItemView;

    open spec fn view(&self) -> ItemView {
        ItemView {
            id: self.id,
            shape: self.shape@,
            allowed_rotation: self.allowed_rotation@,
            base_quality: self.base_quality,
            value: self.value,
            centering_transform: self.centering_transform,
            hazard_filter: self.hazard_filter,
        }
    }
}

/// The filter that a base quality induces.
pub open spec fn filter_of(base_quality: Option<usize>) -> Option<QZHazardFilter> {
    match base_quality {
        Some(q) => Some(QZHazardFilter { cutoff_quality: q }),
        None => None,
    }
}

impl ItemView {
    /// The shape is a polygon with its surrogate, the quality is a level,
    /// and the filter is the one that the quality induces.
    pub open spec fn wf(self) -> bool {
        &&& self.shape.wf()
        &&& self.shape.surrogate.is_some()
        &&& self.centering_transform.wf()
        &&& match self.base_quality {
            Some(q) => q < N_QUALITIES,
            None => true,
        }
        &&& self.hazard_filter == filter_of(self.base_quality)
    }
}

impl Item {
    pub open spec fn wf(&self) -> bool {
        self@.wf()
    }

    /// The item with the given properties; the surrogate of its shape is built
    /// as `surrogate_config` says.
    pub fn new(
        id: usize,
        shape: SimplePolygon,
        value: u64,
        allowed_rotation: AllowedRotation,
        centering_transform: Transformation,
        base_quality: Option<usize>,
        surrogate_config: SPSurrogateConfig,
    ) -> (item: Item)
        requires
            shape.wf(),
            surrogate_config.wf(),
            centering_transform.wf(),
            match base_quality {
                Some(q) => q < N_QUALITIES,
                None => true,
            },
        ensures
            item.wf(),
            item@.id == id,
            item@.value == value,
            item@.allowed_rotation == allowed_rotation@,
            item@.centering_transform == centering_transform,
            item@.base_quality == base_quality,
            item@.hazard_filter == filter_of(base_quality),
            item@.shape.points == shape@.points,
            item@.shape.poi == shape@.poi,
            item@.shape.surrogate.unwrap().poles == seq![shape@.poi] + spec_additional_poles(
                shape@.points,
                shape@.bbox,
                shape@.double_area(),
                shape@.poi,
                surrogate_config.max_poles,
                surrogate_config.pole_coverage_goal as int,
            ),
    {
        let mut shape = shape;
        shape.generate_surrogate(surrogate_config);
        let hazard_filter: Option<QZHazardFilter> = match base_quality {
            Some(q) => Some(QZHazardFilter { cutoff_quality: q }),
            None => None,
        };
        Item {
            id,
            shape,
            allowed_rotation,
            base_quality,
            value,
            centering_transform,
            hazard_filter,
        }
    }

    /// A copy of the item under another identifier.
    pub fn clone_with_id(&self, id: usize) -> (item: Item)
        ensures
            item@ == (ItemView { id, ..self@ }),
    {
        Item {
            id,
            shape: self.shape.clone_polygon(),
            allowed_rotation: self.allowed_rotation.clone_rotation(),
            base_quality: self.base_quality,
            value: self.value,
            centering_transform: self.centering_transform,
            hazard_filter: self.hazard_filter,
        }
    }

    pub fn shape(&self) -> (r: &SimplePolygon)
        ensures
            r == &self.shape,
    {
        &self.shape
    }

    pub fn id(&self) -> (r: usize)
        ensures
            r == self.id,
    {
        self.id
    }

    pub fn value(&self) -> (r: u64)
        ensures
            r == self.value,
    {
        self.value
    }

    pub fn centering_transform(&self) -> (r: &Transformation)
        ensures
            *r == self.centering_transform,
    {
        &self.centering_transform
    }

    pub fn base_quality(&self) -> (r: Option<usize>)
        ensures
            r == self.base_quality,
    {
        self.base_quality
    }

    pub fn hazard_filter(&self) -> (r: Option<&QZHazardFilter>)
        ensures
            match r {
                Some(f) => self.hazard_filter == Some(*f),
                None => self.hazard_filter.is_none(),
            },
    {
        self.hazard_filter.as_ref()
    }

    pub fn allowed_rotation(&self) -> (r: &AllowedRotation)
        ensures
            r == &self.allowed_rotation,
    {
        &self.allowed_rotation
    }
}

} // verus!
