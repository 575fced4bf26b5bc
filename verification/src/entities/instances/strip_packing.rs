//! Instances of strip packing.

use vstd::prelude::*;
use crate::entities::instances::instance::{check_items, clone_items, items_ok};
use crate::entities::item::Item;
use crate::geometry::point::VERTEX_MAX;

verus! {

/// Items to place into a strip of fixed height and open width.
#[derive(Debug)]
pub struct SPInstance {
    /// The items, each with the number of copies demanded.
    pub items: Vec<(Item, usize)>,
    pub strip_height: i64,
}

impl SPInstance {
    pub open spec fn wf(&self) -> bool {
        items_ok(self.items@) && 0 < self.strip_height <= VERTEX_MAX
    }

    /// The instance with the given items and strip height, unless an item's
    /// identifier is not its position, the demands are too many, or the
    /// height is not above zero and within `VERTEX_MAX`.
    pub fn new(items: Vec<(Item, usize)>, strip_height: i64) -> (r: Option<SPInstance>)
        requires
            forall|i: int| 0 <= i < items@.len() ==> (#[trigger] items@[i]).0.wf(),
        ensures
            r.is_some() == (items_ok(items@) && 0 < strip_height <= VERTEX_MAX),
            r.is_some() ==> r.unwrap().wf() && r.unwrap().items == items
                && r.unwrap().strip_height == strip_height,
    {
        if !(0 < strip_height && strip_height <= VERTEX_MAX) {
            return None;
        }
        if !check_items(&items) {
            return None;
        }
        Some(SPInstance { items, strip_height })
    }

    /// A copy of the instance.
    pub fn clone_instance(&self) -> (r: SPInstance)
        requires
            self.wf(),
        ensures
            r.wf(),
            r.strip_height == self.strip_height,
            r.items@.len() == self.items@.len(),
            forall|i: int|
                0 <= i < self.items@.len() ==> (#[trigger] r.items@[i]).0@ == self.items@[i].0@
                    && r.items@[i].1 == self.items@[i].1,
    {
        SPInstance { items: clone_items(&self.items), strip_height: self.strip_height }
    }
}

} // verus!
