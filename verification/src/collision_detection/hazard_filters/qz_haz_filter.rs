//! The filter that an item's quality induces.

use vstd::prelude::*;
use crate::collision_detection::hazard::HazardEntity;
use crate::collision_detection::hazard_filters::hazard_filter::HazardFilter;

verus! {

/// Deems the zones of a quality at or above the cutoff irrelevant: an item
/// of that quality may lie in them.
#[derive(Clone, Copy, Debug, PartialEq, Eq, Structural)]
pub struct QZHazardFilter {
    pub cutoff_quality: usize,
}

impl HazardFilter for QZHazardFilter {
    open spec fn spec_is_relevant(&self, entity: HazardEntity) -> bool {
        match entity {
            HazardEntity::InferiorQualityZone { quality, .. } => quality < self.cutoff_quality,
            _ => true,
        }
    }

    fn is_relevant(&self, entity: &HazardEntity) -> (r: bool) {
        match entity {
            HazardEntity::InferiorQualityZone { quality, .. } => *quality < self.cutoff_quality,
            _ => true,
        }
    }
}

} // verus!
