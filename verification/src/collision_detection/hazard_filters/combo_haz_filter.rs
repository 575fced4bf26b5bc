//! Several filters taken together.

use vstd::prelude::*;
use crate::collision_detection::hazard::HazardEntity;
use crate::collision_detection::hazard_filters::hazard_filter::HazardFilter;

verus! {

/// Deems a hazard relevant when every one of its filters does.
pub struct CombinedHazardFilter<'a> {
    pub filters: Vec<Box<&'a dyn HazardFilter>>,
}

/// Whether each of the first `k` filters deems the hazard relevant.
pub open spec fn all_relevant(
    filters: Seq<Box<&dyn HazardFilter>>,
    entity: HazardEntity,
    k: int,
) -> bool {
    forall|i: int| 0 <= i < k ==> (#[trigger] filters[i]).spec_is_relevant(entity)
}

impl<'a> HazardFilter for CombinedHazardFilter<'a> {
    open spec fn spec_is_relevant(&self, entity: HazardEntity) -> bool {
        all_relevant(self.filters@, entity, self.filters@.len() as int)
    }

    fn is_relevant(&self, entity: &HazardEntity) -> (r: bool) {
        let mut i: usize = 0;
        while i < self.filters.len()
            invariant
                i <= self.filters.len(),
                all_relevant(self.filters@, *entity, i as int),
            decreases self.filters.len() - i,
        {
            if !self.filters[i].is_relevant(entity) {
                return false;
            }
            i += 1;
        }
        true
    }
}

impl<'a> CombinedHazardFilter<'a> {
    /// The combination of no filters, for which every hazard is relevant.
    pub fn new() -> (r: Self)
        ensures
            r.filters@.len() == 0,
    {
        Self { filters: Vec::new() }
    }

    /// The combination with one more filter.
    pub fn add(self, filter: &'a dyn HazardFilter) -> (r: Self)
        ensures
            r.filters@ == self.filters@.push(Box::new(filter)),
    {
        let mut s = self;
        s.filters.push(Box::new(filter));
        s
    }
}

} // verus!
