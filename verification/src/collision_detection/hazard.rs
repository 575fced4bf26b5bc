//! Regions in which no item, or no item of some quality, may lie.

use itertools::Itertools;
use vstd::prelude::*;
use crate::entities::quality_zone::N_QUALITIES;
use crate::geometry::geo_enums::GeoPosition;
use crate::geometry::simple_polygon::SimplePolygon;

verus! {

/// What a hazard stands for.
#[derive(Clone, Copy, Debug, PartialEq, Eq, Structural, Hash)]
pub enum HazardEntity {
    /// Everything outside the bin.
    BinExterior,
    /// A hole of the bin.
    BinHole { id: usize },
    /// An item placed in the layout, by its identifier in the layout.
    PlacedItem { id: usize },
    /// A zone of inferior quality of the bin.
    InferiorQualityZone { quality: usize, id: usize },
}

impl HazardEntity {
    /// The side of the hazard's shape on which no item may lie.
    pub open spec fn spec_position(self) -> GeoPosition {
        match self {
            HazardEntity::BinExterior => GeoPosition::Exterior,
            _ => GeoPosition::Interior,
        }
    }

    pub fn position(&self) -> (r: GeoPosition)
        ensures
            r == self.spec_position(),
    {
        match self {
            HazardEntity::BinExterior => GeoPosition::Exterior,
            _ => GeoPosition::Interior,
        }
    }

    /// Whether the hazard holds for every item, whatever its quality.
    pub open spec fn spec_universal(self) -> bool {
        match self {
            HazardEntity::InferiorQualityZone { .. } => false,
            _ => true,
        }
    }

    pub fn universal(&self) -> (r: bool)
        ensures
            r == self.spec_universal(),
    {
        match self {
            HazardEntity::InferiorQualityZone { .. } => false,
            _ => true,
        }
    }

    /// Whether the hazard comes and goes with the items of a layout.
    pub open spec fn spec_dynamic(self) -> bool {
        self is PlacedItem
    }

    /// A quality zone names a quality below `N_QUALITIES`.
    pub open spec fn wf(self) -> bool {
        match self {
            HazardEntity::InferiorQualityZone { quality, .. } => quality < N_QUALITIES,
            _ => true,
        }
    }
}

/// A forbidden region with what it stands for.
#[derive(Debug)]
pub struct Hazard {
    pub entity: HazardEntity,
    pub shape: SimplePolygon,
    /// An inactive hazard is not looked at.
    pub active: bool,
}

impl Hazard {
    /// The shape is a polygon, the entity is acceptable, and the hazard of a
    /// placed item has its disk surrogate.
    pub open spec fn wf(&self) -> bool {
        &&& self.shape.wf()
        &&& self.entity.wf()
        &&& self.entity.spec_dynamic() ==> self.shape.surrogate.is_some()
    }

    /// An active hazard of the given shape.
    pub fn new(entity: HazardEntity, shape: SimplePolygon) -> (h: Hazard)
        ensures
            h.entity == entity,
            h.shape == shape,
            h.active,
    {
        Hazard { entity, shape, active: true }
    }

}

/// Calls `itertools::Itertools::contains` on the iterator over `entities`,
/// which tells whether the iterator yields an item that equals `entity`.
/// Taken on trust: that it does so, and that the equality it asks, the one
/// derived for `HazardEntity`, holds of two entities exactly where they are
/// the same.
#[verifier::external_body]
pub(crate) fn entities_contain(entities: &Vec<HazardEntity>, entity: &HazardEntity) -> (r: bool)
    ensures
        r == entities@.contains(*entity),
{
    entities.iter().contains(entity)
}

} // verus!
