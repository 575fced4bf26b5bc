//! Outlines of the library's shapes as the steps of a drawn path.

use vstd::prelude::*;
use crate::collision_detection::hazard::HazardEntity;
use crate::collision_detection::quadtree::qt_hazard::{QTHazPresence, QTHazard};
use crate::collision_detection::quadtree::qt_node::{spec_strongest, QTNode};
use crate::geometry::aa_rectangle::AARectangle;
use crate::geometry::edge::Edge;
use crate::geometry::point::Point;
use crate::geometry::simple_polygon::SimplePolygon;

verus! {

/// One step of a path.
#[derive(Debug, Clone, Copy, PartialEq, Eq, Structural)]
pub enum PathStep {
    /// Lift the pen and put it down at the point.
    MoveTo(Point),
    /// Draw a line to the point.
    LineTo(Point),
    /// Draw a line back to where the pen was last put down.
    Close,
}

/// The closed path through the points, in order.
pub open spec fn polygon_steps(points: Seq<Point>) -> Seq<PathStep> {
    Seq::new(
        (points.len() + 1) as nat,
        |i: int|
            if i == 0 {
                PathStep::MoveTo(points[0])
            } else if i < points.len() {
                PathStep::LineTo(points[i])
            } else {
                PathStep::Close
            },
    )
}

/// The closed path around the box, from its lowest corner against the
/// clock.
pub open spec fn box_steps(r: AARectangle) -> Seq<PathStep> {
    seq![
        PathStep::MoveTo(Point(r.x_min, r.y_min)),
        PathStep::LineTo(Point(r.x_max, r.y_min)),
        PathStep::LineTo(Point(r.x_max, r.y_max)),
        PathStep::LineTo(Point(r.x_min, r.y_max)),
        PathStep::Close,
    ]
}

/// The three paths of a part of the quadtree: the boxes that a hazard
/// fills, the boxes that a hazard's border may run through, and the boxes
/// free of hazards.
pub struct TreePaths {
    pub entire: Seq<PathStep>,
    pub partial: Seq<PathStep>,
    pub free: Seq<PathStep>,
}

impl TreePaths {
    /// Three paths without a step.
    pub open spec fn empty() -> TreePaths {
        TreePaths { entire: Seq::empty(), partial: Seq::empty(), free: Seq::empty() }
    }

    /// The paths of `self`, each followed by that of `other`.
    pub open spec fn followed_by(self, other: TreePaths) -> TreePaths {
        TreePaths {
            entire: self.entire + other.entire,
            partial: self.partial + other.partial,
            free: self.free + other.free,
        }
    }
}

/// The box of a node that is drawn as a whole, on the path that its
/// strongest entry asks for.
pub open spec fn leaf_paths(node: QTNode, ignored: Seq<HazardEntity>) -> TreePaths {
    let b = box_steps(node.bbox);
    match spec_strongest(node.hazards@, ignored) {
        Some(i) => if node.hazards@[i].presence@ is Entire {
            TreePaths { entire: b, ..TreePaths::empty() }
        } else {
            TreePaths { partial: b, ..TreePaths::empty() }
        },
        None => TreePaths { free: b, ..TreePaths::empty() },
    }
}

/// The paths of the node: a node with children in which a hazard that is
/// not ignored is present gives the paths of its children, one after the
/// other; every other node is drawn as a whole.
pub open spec fn node_paths(node: QTNode, ignored: Seq<HazardEntity>) -> TreePaths
    decreases node.level, node.children@.len() + 1,
{
    if node.children@.len() > 0 && spec_strongest(node.hazards@, ignored).is_some() {
        children_paths(node, ignored, node.children@.len())
    } else {
        leaf_paths(node, ignored)
    }
}

/// The paths of the first `k` children of the node. A child that is not
/// on a lower level than the node, as none is in a tree that the library
/// built, gives nothing.
pub open spec fn children_paths(node: QTNode, ignored: Seq<HazardEntity>, k: nat) -> TreePaths
    decreases node.level, k,
{
    if k == 0 || k > node.children@.len() {
        TreePaths::empty()
    } else {
        let child = node.children@[k - 1];
        let below = if child.level < node.level {
            node_paths(child, ignored)
        } else {
            TreePaths::empty()
        };
        children_paths(node, ignored, (k - 1) as nat).followed_by(below)
    }
}

/// The outline of the polygon as a closed path from its first vertex.
pub fn simple_polygon_data(s_poly: &SimplePolygon) -> (data: Vec<PathStep>)
    requires
        s_poly.points@.len() > 0,
    ensures
        data@ == polygon_steps(s_poly.points@),
{
    let mut data: Vec<PathStep> = Vec::new();
    data.push(PathStep::MoveTo(s_poly.get_point(0)));
    let mut i: usize = 1;
    while i < s_poly.number_of_points()
        invariant
            1 <= i <= s_poly.points@.len(),
            data@.len() == i,
            forall|k: int| 0 <= k < i ==> data@[k] == polygon_steps(s_poly.points@)[k],
        decreases s_poly.points@.len() - i,
    {
        data.push(PathStep::LineTo(s_poly.get_point(i)));
        i += 1;
    }
    data.push(PathStep::Close);
    assert(data@ =~= polygon_steps(s_poly.points@));
    data
}

/// The path along the edge.
pub fn edge_data(edge: &Edge) -> (data: Vec<PathStep>)
    ensures
        data@ == seq![PathStep::MoveTo(edge.start), PathStep::LineTo(edge.end)],
{
    let mut data: Vec<PathStep> = Vec::new();
    data.push(PathStep::MoveTo(edge.start));
    data.push(PathStep::LineTo(edge.end));
    assert(data@ =~= seq![PathStep::MoveTo(edge.start), PathStep::LineTo(edge.end)]);
    data
}

/// Draws the box at the end of the path.
fn draw_box(data: &mut Vec<PathStep>, rect: &AARectangle)
    ensures
        final(data)@ == old(data)@ + box_steps(*rect),
{
    data.push(PathStep::MoveTo(Point(rect.x_min, rect.y_min)));
    data.push(PathStep::LineTo(Point(rect.x_max, rect.y_min)));
    data.push(PathStep::LineTo(Point(rect.x_max, rect.y_max)));
    data.push(PathStep::LineTo(Point(rect.x_min, rect.y_max)));
    data.push(PathStep::Close);
    assert(data@ =~= old(data)@ + box_steps(*rect));
}

/// The three paths of the quadtree below `qt_root`, for a viewer to whom
/// the hazards of `ignored_entities` do not matter: the boxes that a hazard
/// fills, those that a hazard's border may run through, and those free of
/// hazards.
pub fn quad_tree_data(qt_root: &QTNode, ignored_entities: &Vec<HazardEntity>) -> (data: (
    Vec<PathStep>,
    Vec<PathStep>,
    Vec<PathStep>,
))
    ensures
        data.0@ == node_paths(*qt_root, ignored_entities@).entire,
        data.1@ == node_paths(*qt_root, ignored_entities@).partial,
        data.2@ == node_paths(*qt_root, ignored_entities@).free,
{
    let mut data_eh: Vec<PathStep> = Vec::new();
    let mut data_ph: Vec<PathStep> = Vec::new();
    let mut data_nh: Vec<PathStep> = Vec::new();
    qt_node_data(qt_root, &mut data_eh, &mut data_ph, &mut data_nh, ignored_entities);
    let ghost paths = node_paths(*qt_root, ignored_entities@);
    assert(data_eh@ =~= paths.entire);
    assert(data_ph@ =~= paths.partial);
    assert(data_nh@ =~= paths.free);
    (data_eh, data_ph, data_nh)
}

/// Adds the paths of the node to the three paths.
fn qt_node_data(
    qt_node: &QTNode,
    data_eh: &mut Vec<PathStep>,
    data_ph: &mut Vec<PathStep>,
    data_nh: &mut Vec<PathStep>,
    ignored_entities: &Vec<HazardEntity>,
)
    ensures
        final(data_eh)@ == old(data_eh)@ + node_paths(*qt_node, ignored_entities@).entire,
        final(data_ph)@ == old(data_ph)@ + node_paths(*qt_node, ignored_entities@).partial,
        final(data_nh)@ == old(data_nh)@ + node_paths(*qt_node, ignored_entities@).free,
    decreases qt_node.level,
{
    let ghost eh0 = data_eh@;
    let ghost ph0 = data_ph@;
    let ghost nh0 = data_nh@;
    let strongest: Option<&QTHazard> = qt_node.strongest(ignored_entities);
    if qt_node.has_children() && strongest.is_some() {
        let mut c: usize = 0;
        while c < qt_node.children.len()
            invariant
                c <= qt_node.children@.len(),
                data_eh@ == eh0 + children_paths(*qt_node, ignored_entities@, c as nat).entire,
                data_ph@ == ph0 + children_paths(*qt_node, ignored_entities@, c as nat).partial,
                data_nh@ == nh0 + children_paths(*qt_node, ignored_entities@, c as nat).free,
            decreases qt_node.children@.len() - c,
        {
            let ghost before = children_paths(*qt_node, ignored_entities@, c as nat);
            let child: &QTNode = &qt_node.children[c];
            let ghost below = if child.level < qt_node.level {
                node_paths(*child, ignored_entities@)
            } else {
                TreePaths::empty()
            };
            if child.level < qt_node.level {
                qt_node_data(child, data_eh, data_ph, data_nh, ignored_entities);
            }
            proof {
                assert(children_paths(*qt_node, ignored_entities@, (c + 1) as nat) == before.followed_by(
                    below,
                ));
                assert(data_eh@ =~= eh0 + before.followed_by(below).entire);
                assert(data_ph@ =~= ph0 + before.followed_by(below).partial);
                assert(data_nh@ =~= nh0 + before.followed_by(below).free);
            }
            c += 1;
        }
    } else {
        match strongest {
            Some(entry) => match &entry.presence {
                QTHazPresence::Entire => draw_box(data_eh, &qt_node.bbox),
                _ => draw_box(data_ph, &qt_node.bbox),
            },
            None => draw_box(data_nh, &qt_node.bbox),
        }
        proof {
            let paths = leaf_paths(*qt_node, ignored_entities@);
            assert(data_eh@ =~= eh0 + paths.entire);
            assert(data_ph@ =~= ph0 + paths.partial);
            assert(data_nh@ =~= nh0 + paths.free);
        }
    }
}

} // verus!
