//! Zones of a bin whose material is of inferior quality.

use vstd::prelude::*;
use crate::geometry::simple_polygon::SimplePolygon;

verus! {

/// Number of quality levels. Quality zero is the worst.
pub const N_QUALITIES: usize = 10;

/// The zones of one quality level of a bin.
#[derive(Debug)]
pub struct InferiorQualityZone {
    /// Below `N_QUALITIES`; the lower, the fewer items may lie in the zone.
    pub quality: usize,
    pub zones: Vec<SimplePolygon>,
}

impl InferiorQualityZone {
    /// The quality is a level and every zone is a polygon.
    pub open spec fn wf(&self) -> bool {
        &&& self.quality < N_QUALITIES
        &&& forall|i: int| 0 <= i < self.zones@.len() ==> (#[trigger] self.zones@[i]).wf()
    }

    /// The zones of the given quality, unless the quality is no level.
    pub fn new(quality: usize, zones: Vec<SimplePolygon>) -> (r: Option<InferiorQualityZone>)
        requires
            forall|i: int| 0 <= i < zones@.len() ==> (#[trigger] zones@[i]).wf(),
        ensures
            quality < N_QUALITIES <==> r.is_some(),
            r.is_some() ==> r.unwrap().wf() && r.unwrap().quality == quality
                && r.unwrap().zones@ == zones@,
    {
        if quality < N_QUALITIES {
            Some(InferiorQualityZone { quality, zones })
        } else {
            None
        }
    }
}

} // verus!
