//! A proposal to place an item.

use vstd::prelude::*;
use crate::entities::problems::problem::LayoutIndex;
use crate::geometry::transformation::{DTransformation, Transformation};

verus! {

/// Where to place which item, and how moved.
#[derive(Clone, Copy, Debug, PartialEq, Eq, Structural)]
pub struct PlacingOption {
    pub layout_index: LayoutIndex,
    pub item_id: usize,
    pub transform: Transformation,
    /// The parts of `transform`.
    pub d_transform: DTransformation,
}

impl PlacingOption {
    /// The two forms of the motion agree.
    pub open spec fn wf(self) -> bool {
        self.transform == self.d_transform.spec_compose()
    }

    /// The proposal to place the item in the layout, moved by `transform`.
    pub fn new(layout_index: LayoutIndex, item_id: usize, transform: Transformation) -> (r:
        PlacingOption)
        ensures
            r.wf(),
            r == (PlacingOption {
                layout_index,
                item_id,
                transform,
                d_transform: transform.spec_decompose(),
            }),
    {
        PlacingOption { layout_index, item_id, transform, d_transform: transform.decompose() }
    }
}

} // verus!
