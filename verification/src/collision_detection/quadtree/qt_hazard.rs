//! What a node of the quadtree knows of a hazard.

use vstd::prelude::*;
use crate::collision_detection::hazard::{Hazard, HazardEntity};
use crate::geometry::aa_rectangle::AARectangle;
use crate::geometry::edge::Edge;
use crate::geometry::geo_enums::GeoPosition;
use crate::geometry::outline::{chain_ok, chain_position, compute_contains, edge_at, edge_of};
use crate::geometry::point::Point;

verus! {

/// How a hazard is present in a node.
#[derive(Debug)]
pub enum QTHazPresence {
    /// The hazard does not reach into the node.
    NotPresent,
    /// The hazard's border may run through the node: the edges whose
    /// bounding boxes meet the node's box.
    Partial(Vec<Edge>),
    /// No edge of the hazard comes near the node, and the node's centroid
    /// lies on the hazard's forbidden side.
    Entire,
}

/// How a hazard is present in a node, as a mathematical value.
pub enum PresenceView {
    NotPresent,
    Partial(Seq<Edge>),
    Entire,
}

impl View for QTHazPresence {
    type V = PresenceView;

    open spec fn view(&self) -> PresenceView {
        match self {
            QTHazPresence::NotPresent => PresenceView::NotPresent,
            QTHazPresence::Partial(edges) => PresenceView::Partial(edges@),
            QTHazPresence::Entire => PresenceView::Entire,
        }
    }
}

/// A hazard as a node of the quadtree knows it.
#[derive(Debug)]
pub struct QTHazard {
    pub entity: HazardEntity,
    pub presence: QTHazPresence,
    pub active: bool,
}

/// Those of the first `k` edges of the chain whose bounding boxes meet
/// `bbox`, in order.
pub open spec fn edges_near(points: Seq<Point>, bbox: AARectangle, k: nat) -> Seq<Edge>
    decreases k,
{
    if k == 0 {
        Seq::empty()
    } else {
        let before = edges_near(points, bbox, (k - 1) as nat);
        let e = edge_at(points, k - 1);
        if e.spec_bbox().spec_overlaps(bbox) {
            before.push(e)
        } else {
            before
        }
    }
}

/// How the hazard is present in a node with the given box.
pub open spec fn spec_presence(h: Hazard, bbox: AARectangle) -> PresenceView {
    let edges = edges_near(h.shape.points@, bbox, h.shape.points@.len());
    if edges.len() > 0 {
        PresenceView::Partial(edges)
    } else if chain_position(h.shape.points@, bbox.spec_centroid()) == h.entity.spec_position() {
        PresenceView::Entire
    } else {
        PresenceView::NotPresent
    }
}

/// The edges of a presence: those listed where it is partial, else none.
pub open spec fn presence_edges(p: PresenceView) -> Seq<Edge> {
    match p {
        PresenceView::Partial(edges) => edges,
        _ => Seq::empty(),
    }
}

/// What the node knows of the hazard is what holds of it.
pub open spec fn entry_matches(q: QTHazard, h: Hazard, bbox: AARectangle) -> bool {
    &&& q.entity == h.entity
    &&& q.active == h.active
    &&& q.presence@ == spec_presence(h, bbox)
}

/// An edge of the chain whose box meets `bbox` is among the edges near.
pub proof fn lemma_near_edge_is_listed(points: Seq<Point>, bbox: AARectangle, k: nat, j: int)
    requires
        0 <= j < k,
        edge_at(points, j).spec_bbox().spec_overlaps(bbox),
    ensures
        edges_near(points, bbox, k).contains(edge_at(points, j)),
    decreases k,
{
    let before = edges_near(points, bbox, (k - 1) as nat);
    let e = edge_at(points, k - 1);
    if j == k - 1 {
        assert(before.push(e)[before.len() as int] == e);
    } else {
        lemma_near_edge_is_listed(points, bbox, (k - 1) as nat, j);
        let i = choose|i: int| 0 <= i < before.len() && before[i] == edge_at(points, j);
        if e.spec_bbox().spec_overlaps(bbox) {
            assert(before.push(e)[i] == edge_at(points, j));
        }
    }
}

/// An edge among the edges near is an edge of the chain whose box meets
/// `bbox`.
pub proof fn lemma_listed_edge_is_near(points: Seq<Point>, bbox: AARectangle, k: nat, f: Edge) -> (j:
    int)
    requires
        edges_near(points, bbox, k).contains(f),
    ensures
        0 <= j < k,
        f == edge_at(points, j),
        f.spec_bbox().spec_overlaps(bbox),
    decreases k,
{
    if k == 0 {
        assert(false);
        0
    } else {
        let before = edges_near(points, bbox, (k - 1) as nat);
        let e = edge_at(points, k - 1);
        let i = choose|i: int| 0 <= i < edges_near(points, bbox, k).len() && edges_near(
            points,
            bbox,
            k,
        )[i] == f;
        if e.spec_bbox().spec_overlaps(bbox) && i == before.len() {
            k - 1
        } else {
            assert(before[i] == f);
            lemma_listed_edge_is_near(points, bbox, (k - 1) as nat, f)
        }
    }
}

impl QTHazard {
    /// What a node with the given box knows of the hazard.
    pub fn new(hazard: &Hazard, bbox: &AARectangle) -> (q: QTHazard)
        requires
            hazard.shape.wf(),
            bbox.wf(),
        ensures
            entry_matches(q, *hazard, *bbox),
            forall|i: int|
                0 <= i < presence_edges(q.presence@).len() ==> (#[trigger] presence_edges(
                    q.presence@,
                )[i]).wf(),
    {
        let points: &Vec<Point> = &hazard.shape.points;
        let mut edges: Vec<Edge> = Vec::new();
        let mut j: usize = 0;
        while j < points.len()
            invariant
                j <= points.len(),
                chain_ok(points@),
                edges@ == edges_near(points@, *bbox, j as nat),
                forall|i: int| 0 <= i < edges@.len() ==> (#[trigger] edges@[i]).wf(),
            decreases points.len() - j,
        {
            let e: Edge = edge_of(points, j);
            assert(edge_at(points@, j as int).wf());
            if e.bbox().overlaps(bbox) {
                edges.push(e);
            }
            j += 1;
        }
        let presence: QTHazPresence = if edges.len() > 0 {
            QTHazPresence::Partial(edges)
        } else {
            let c: Point = bbox.centroid();
            let inside: bool = compute_contains(points, &c);
            let forbidden: bool = match hazard.entity.position() {
                GeoPosition::Interior => inside,
                GeoPosition::Exterior => !inside,
            };
            if forbidden {
                QTHazPresence::Entire
            } else {
                QTHazPresence::NotPresent
            }
        };
        QTHazard { entity: hazard.entity, presence, active: hazard.active }
    }
}

} // verus!
