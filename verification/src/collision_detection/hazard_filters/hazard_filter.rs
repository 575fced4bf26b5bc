//! What a filter of hazards is.

use vstd::prelude::*;
use crate::collision_detection::hazard::HazardEntity;

verus! {

/// Tells, of each hazard, whether a query has to look at it.
pub trait HazardFilter {
    /// Whether the hazard of `entity` matters.
    spec fn spec_is_relevant(&self, entity: HazardEntity) -> bool;

    fn is_relevant(&self, entity: &HazardEntity) -> (r: bool)
        ensures
            r == self.spec_is_relevant(*entity),
    ;
}

} // verus!
