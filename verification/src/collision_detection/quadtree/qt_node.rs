//! The nodes of the quadtree.

use vstd::prelude::*;
use crate::collision_detection::hazard::{entities_contain, Hazard, HazardEntity};
use crate::collision_detection::hazard_filters::hazard_filter::HazardFilter;
use crate::collision_detection::quadtree::qt_hazard::{
    edges_near,
    entry_matches,
    lemma_listed_edge_is_near,
    lemma_near_edge_is_listed,
    presence_edges,
    PresenceView,
    QTHazPresence,
    QTHazard,
};
use crate::geometry::aa_rectangle::AARectangle;
use crate::geometry::edge::{lemma_meeting_edges_overlap, Edge};
use crate::geometry::outline::edge_at;

verus! {

/// A square of the quadtree with what it knows of each hazard, in the order
/// in which the hazards were registered. A node above the last level has
/// four children, one for each quadrant of its box.
#[derive(Debug)]
pub struct QTNode {
    /// The number of levels below the node.
    pub level: u8,
    pub bbox: AARectangle,
    pub children: Vec<QTNode>,
    pub hazards: Vec<QTHazard>,
}

/// Every edge that the entries list can be tested for collisions.
pub open spec fn entries_ok(hazards: Seq<QTHazard>) -> bool {
    forall|i: int, k: int|
        0 <= i < hazards.len() && 0 <= k < presence_edges(hazards[i].presence@).len() ==> (
        #[trigger] presence_edges(hazards[i].presence@)[k]).wf()
}

/// Whether the edge meets an edge that the entries list for a hazard that is
/// active and matters for the filter.
pub open spec fn entries_hit<F: HazardFilter>(hazards: Seq<QTHazard>, e: Edge, filter: F) -> bool {
    exists|i: int, k: int|
        0 <= i < hazards.len() && hazards[i].active && filter.spec_is_relevant(hazards[i].entity)
            && 0 <= k < presence_edges(hazards[i].presence@).len() && e.spec_collides_with(
            #[trigger] presence_edges(hazards[i].presence@)[k],
        )
}

/// Whether the edge meets the `j`-th edge of the `i`-th hazard, which is
/// active and matters for the filter.
pub open spec fn edge_hit<F: HazardFilter>(
    hazards: Seq<Hazard>,
    e: Edge,
    filter: F,
    i: int,
    j: int,
) -> bool {
    &&& 0 <= i < hazards.len()
    &&& 0 <= j < hazards[i].shape.points@.len()
    &&& hazards[i].active
    &&& filter.spec_is_relevant(hazards[i].entity)
    &&& e.spec_collides_with(edge_at(hazards[i].shape.points@, j))
}

/// Whether the edge meets an edge of a hazard that is active and matters
/// for the filter.
pub open spec fn any_edge_hit<F: HazardFilter>(hazards: Seq<Hazard>, e: Edge, filter: F) -> bool {
    exists|i: int, j: int| #[trigger] edge_hit(hazards, e, filter, i, j)
}

impl QTNode {
    /// The node's box is a box, its children are the nodes of its box's
    /// quadrants one level below, and every node knows of equally many
    /// hazards.
    pub open spec fn structure_ok(self) -> bool
        decreases self.level,
    {
        &&& self.bbox.wf()
        &&& entries_ok(self.hazards@)
        &&& if self.level == 0 {
            self.children@.len() == 0
        } else {
            &&& self.children@.len() == 4
            &&& forall|c: int|
                0 <= c < 4 ==> {
                    &&& (#[trigger] self.children@[c]).level == self.level - 1
                    &&& self.children@[c].bbox == self.bbox.spec_quadrants()[c]
                    &&& self.children@[c].hazards@.len() == self.hazards@.len()
                    &&& self.children@[c].structure_ok()
                }
        }
    }

    /// The node and the nodes below it know of the hazards `hs`, in order,
    /// what holds of them.
    pub open spec fn describes(self, hs: Seq<Hazard>) -> bool
        decreases self.level,
    {
        &&& self.hazards@.len() == hs.len()
        &&& forall|i: int|
            0 <= i < hs.len() ==> entry_matches(#[trigger] self.hazards@[i], hs[i], self.bbox)
        &&& forall|c: int|
            0 <= c < self.children@.len() ==> (#[trigger] self.children@[c]).level < self.level
                && self.children@[c].describes(hs)
    }

    /// Whether the search from the node finds an edge that `e` meets: the
    /// search goes down into the nodes whose boxes meet the bounding box of
    /// `e`, and at the last level tests `e` against the edges listed.
    pub open spec fn finds<F: HazardFilter>(self, e: Edge, filter: F) -> bool
        decreases self.level,
    {
        &&& e.spec_bbox().spec_overlaps(self.bbox)
        &&& if self.level == 0 {
            entries_hit(self.hazards@, e, filter)
        } else {
            exists|c: int|
                0 <= c < self.children@.len() && (#[trigger] self.children@[c]).level < self.level
                    && self.children@[c].finds(e, filter)
        }
    }

    /// The tree over `bbox` with `level` levels below its root, which knows
    /// of no hazard.
    pub fn new(bbox: AARectangle, level: u8) -> (node: QTNode)
        requires
            bbox.wf(),
        ensures
            node.structure_ok(),
            node.bbox == bbox,
            node.level == level,
            node.hazards@.len() == 0,
            node.describes(Seq::<Hazard>::empty()),
        decreases level,
    {
        let mut children: Vec<QTNode> = Vec::new();
        if level > 0 {
            let q: [AARectangle; 4] = bbox.quadrants();
            assert(q@[0].wf() && q@[1].wf() && q@[2].wf() && q@[3].wf());
            children.push(QTNode::new(q[0], level - 1));
            children.push(QTNode::new(q[1], level - 1));
            children.push(QTNode::new(q[2], level - 1));
            children.push(QTNode::new(q[3], level - 1));
        }
        QTNode { level, bbox, children, hazards: Vec::new() }
    }

    /// Makes the node and the nodes below it know of one more hazard.
    pub fn register_hazard(&mut self, hazard: &Hazard)
        requires
            old(self).structure_ok(),
            hazard.shape.wf(),
        ensures
            final(self).structure_ok(),
            final(self).bbox == old(self).bbox,
            final(self).level == old(self).level,
            final(self).hazards@.len() == old(self).hazards@.len() + 1,
            forall|hs: Seq<Hazard>|
                old(self).describes(hs) ==> #[trigger] final(self).describes(hs.push(*hazard)),
        decreases old(self).level,
    {
        let ghost before = *self;
        let entry: QTHazard = QTHazard::new(hazard, &self.bbox);
        self.hazards.push(entry);
        if self.level > 0 {
            self.children[0].register_hazard(hazard);
            self.children[1].register_hazard(hazard);
            self.children[2].register_hazard(hazard);
            self.children[3].register_hazard(hazard);
        }
        proof {
            assert(entries_ok(self.hazards@)) by {
                assert forall|i: int, k: int|
                    0 <= i < self.hazards@.len() && 0 <= k < presence_edges(
                        self.hazards@[i].presence@,
                    ).len() implies (#[trigger] presence_edges(self.hazards@[i].presence@)[k]).wf() by {
                    if i < before.hazards@.len() {
                        assert(self.hazards@[i] == before.hazards@[i]);
                    }
                }
            }
            assert forall|hs: Seq<Hazard>| before.describes(hs) implies #[trigger] self.describes(
                hs.push(*hazard),
            ) by {
                let hs1 = hs.push(*hazard);
                assert forall|i: int| 0 <= i < hs1.len() implies entry_matches(
                    #[trigger] self.hazards@[i],
                    hs1[i],
                    self.bbox,
                ) by {
                    if i < hs.len() {
                        assert(self.hazards@[i] == before.hazards@[i]);
                        assert(entry_matches(before.hazards@[i], hs[i], before.bbox));
                    }
                }
                assert forall|c: int| 0 <= c < self.children@.len() implies (
                #[trigger] self.children@[c]).level < self.level && self.children@[c].describes(
                    hs1,
                ) by {
                    assert(before.children@[c].describes(hs));
                }
            }
        }
    }

    /// Makes the node and the nodes below it forget the hazard at position
    /// `index`.
    pub fn deregister_hazard(&mut self, index: usize)
        requires
            old(self).structure_ok(),
            index < old(self).hazards@.len(),
        ensures
            final(self).structure_ok(),
            final(self).bbox == old(self).bbox,
            final(self).level == old(self).level,
            final(self).hazards@.len() == old(self).hazards@.len() - 1,
            forall|hs: Seq<Hazard>|
                old(self).describes(hs) ==> #[trigger] final(self).describes(
                    hs.remove(index as int),
                ),
        decreases old(self).level,
    {
        let ghost before = *self;
        let gone: QTHazard = self.hazards.remove(index);
        if self.level > 0 {
            self.children[0].deregister_hazard(index);
            self.children[1].deregister_hazard(index);
            self.children[2].deregister_hazard(index);
            self.children[3].deregister_hazard(index);
        }
        proof {
            assert(entries_ok(self.hazards@)) by {
                assert forall|i: int, k: int|
                    0 <= i < self.hazards@.len() && 0 <= k < presence_edges(
                        self.hazards@[i].presence@,
                    ).len() implies (#[trigger] presence_edges(self.hazards@[i].presence@)[k]).wf() by {
                    if i < index {
                        assert(self.hazards@[i] == before.hazards@[i]);
                    } else {
                        assert(self.hazards@[i] == before.hazards@[i + 1]);
                    }
                }
            }
            assert forall|hs: Seq<Hazard>| before.describes(hs) implies #[trigger] self.describes(
                hs.remove(index as int),
            ) by {
                let hs1 = hs.remove(index as int);
                assert forall|i: int| 0 <= i < hs1.len() implies entry_matches(
                    #[trigger] self.hazards@[i],
                    hs1[i],
                    self.bbox,
                ) by {
                    if i < index {
                        assert(self.hazards@[i] == before.hazards@[i]);
                        assert(entry_matches(before.hazards@[i], hs[i], before.bbox));
                    } else {
                        assert(self.hazards@[i] == before.hazards@[i + 1]);
                        assert(entry_matches(before.hazards@[i + 1], hs[i + 1], before.bbox));
                    }
                }
                assert forall|c: int| 0 <= c < self.children@.len() implies (
                #[trigger] self.children@[c]).level < self.level && self.children@[c].describes(
                    hs1,
                ) by {
                    assert(before.children@[c].describes(hs));
                }
            }
        }
    }

    /// Tells whether `e` meets an edge of a hazard that is active and
    /// matters for the filter, among the edges that the search from the node
    /// comes by.
    pub fn collides<F: HazardFilter>(&self, e: &Edge, filter: &F) -> (r: bool)
        requires
            self.structure_ok(),
            e.wf(),
        ensures
            r == self.finds(*e, *filter),
        decreases self.level,
    {
        if !e.bbox().overlaps(&self.bbox) {
            return false;
        }
        if self.level == 0 {
            entries_collide(&self.hazards, e, filter)
        } else {
            let mut c: usize = 0;
            while c < 4
                invariant
                    c <= 4,
                    self.structure_ok(),
                    self.level > 0,
                    e.wf(),
                    forall|d: int| 0 <= d < c ==> !(#[trigger] self.children@[d]).finds(*e, *filter),
                decreases 4 - c,
            {
                assert(self.children@[c as int].structure_ok());
                if self.children[c].collides(e, filter) {
                    return true;
                }
                c += 1;
            }
            false
        }
    }

    /// The entry of the hazard that is most present in the node, of those
    /// that are active and not to be ignored: the first that is entirely
    /// present, else the first that is partially present.
    pub fn strongest(&self, ignored: &Vec<HazardEntity>) -> (r: Option<&QTHazard>)
        ensures
            match r {
                Some(q) => spec_strongest(self.hazards@, ignored@).is_some() && *q
                    == self.hazards@[spec_strongest(self.hazards@, ignored@).unwrap()],
                None => spec_strongest(self.hazards@, ignored@).is_none(),
            },
    {
        let mut partial: Option<usize> = None;
        let mut i: usize = 0;
        while i < self.hazards.len()
            invariant
                i <= self.hazards.len(),
                first_counted(self.hazards@, ignored@, true, i as nat).is_none(),
                partial == match first_counted(self.hazards@, ignored@, false, i as nat) {
                    Some(k) => Some(k as usize),
                    None => None::<usize>,
                },
                match first_counted(self.hazards@, ignored@, false, i as nat) {
                    Some(k) => 0 <= k < i,
                    None => true,
                },
            decreases self.hazards.len() - i,
        {
            let h: &QTHazard = &self.hazards[i];
            if h.active && !entities_contain(ignored, &h.entity) {
                match &h.presence {
                    QTHazPresence::Entire => {
                        proof {
                            assert(first_counted(self.hazards@, ignored@, true, (i + 1) as nat)
                                == Some(i as int));
                            lemma_first_counted_stays(
                                self.hazards@,
                                ignored@,
                                true,
                                (i + 1) as nat,
                                self.hazards@.len(),
                            );
                        }
                        return Some(h);
                    },
                    QTHazPresence::Partial(_) => {
                        if partial.is_none() {
                            partial = Some(i);
                        }
                    },
                    QTHazPresence::NotPresent => {},
                }
            }
            i += 1;
        }
        match partial {
            Some(k) => Some(&self.hazards[k]),
            None => None,
        }
    }

    pub fn has_children(&self) -> (r: bool)
        ensures
            r == (self.children@.len() > 0),
    {
        self.children.len() > 0
    }

    pub fn children(&self) -> (r: &Vec<QTNode>)
        ensures
            r == &self.children,
    {
        &self.children
    }

    pub fn hazards(&self) -> (r: &Vec<QTHazard>)
        ensures
            r == &self.hazards,
    {
        &self.hazards
    }

    pub fn bbox(&self) -> (r: &AARectangle)
        ensures
            *r == self.bbox,
    {
        &self.bbox
    }
}

/// Whether the entry counts in the search for the strongest presence: its
/// hazard is active and not to be ignored, and it is entirely present, or
/// partially, as asked.
pub open spec fn counted(q: QTHazard, ignored: Seq<HazardEntity>, entire: bool) -> bool {
    &&& q.active
    &&& !ignored.contains(q.entity)
    &&& if entire {
        q.presence@ is Entire
    } else {
        q.presence@ is Partial
    }
}

/// The position of the first of the first `k` entries that counts.
pub open spec fn first_counted(
    hazards: Seq<QTHazard>,
    ignored: Seq<HazardEntity>,
    entire: bool,
    k: nat,
) -> Option<int>
    decreases k,
{
    if k == 0 {
        None
    } else {
        match first_counted(hazards, ignored, entire, (k - 1) as nat) {
            Some(i) => Some(i),
            None => if counted(hazards[k - 1], ignored, entire) {
                Some(k - 1)
            } else {
                None
            },
        }
    }
}

/// The position of the entry that is most present.
pub open spec fn spec_strongest(hazards: Seq<QTHazard>, ignored: Seq<HazardEntity>) -> Option<int> {
    match first_counted(hazards, ignored, true, hazards.len()) {
        Some(i) => Some(i),
        None => first_counted(hazards, ignored, false, hazards.len()),
    }
}

/// Once an entry that counts is found, looking at more entries does not
/// change which is the first.
pub proof fn lemma_first_counted_stays(
    hazards: Seq<QTHazard>,
    ignored: Seq<HazardEntity>,
    entire: bool,
    k: nat,
    m: nat,
)
    requires
        first_counted(hazards, ignored, entire, k).is_some(),
        k <= m,
    ensures
        first_counted(hazards, ignored, entire, m) == first_counted(hazards, ignored, entire, k),
    decreases m,
{
    if k < m {
        lemma_first_counted_stays(hazards, ignored, entire, k, (m - 1) as nat);
    }
}

/// Tells whether `e` meets an edge that the entries list for a hazard that
/// is active and matters for the filter.
pub fn entries_collide<F: HazardFilter>(hazards: &Vec<QTHazard>, e: &Edge, filter: &F) -> (r: bool)
    requires
        entries_ok(hazards@),
        e.wf(),
    ensures
        r == entries_hit(hazards@, *e, *filter),
{
    let mut i: usize = 0;
    while i < hazards.len()
        invariant
            i <= hazards.len(),
            entries_ok(hazards@),
            e.wf(),
            forall|a: int, k: int|
                0 <= a < i && hazards@[a].active && filter.spec_is_relevant(hazards@[a].entity) && 0
                    <= k < presence_edges(hazards@[a].presence@).len() ==> !e.spec_collides_with(
                    #[trigger] presence_edges(hazards@[a].presence@)[k],
                ),
        decreases hazards.len() - i,
    {
        let h: &QTHazard = &hazards[i];
        if h.active && filter.is_relevant(&h.entity) {
            match &h.presence {
                QTHazPresence::Partial(edges) => {
                    let mut k: usize = 0;
                    while k < edges.len()
                        invariant
                            k <= edges.len(),
                            i < hazards.len(),
                            *h == hazards@[i as int],
                            h.presence@ == PresenceView::Partial(edges@),
                            h.active,
                            filter.spec_is_relevant(h.entity),
                            entries_ok(hazards@),
                            e.wf(),
                            forall|m: int| 0 <= m < k ==> !e.spec_collides_with(#[trigger] edges@[m]),
                        decreases edges.len() - k,
                    {
                        assert(presence_edges(hazards@[i as int].presence@)[k as int].wf());
                        if e.collides_with(&edges[k]) {
                            assert(e.spec_collides_with(
                                presence_edges(hazards@[i as int].presence@)[k as int],
                            ));
                            return true;
                        }
                        k += 1;
                    }
                },
                _ => {},
            }
        }
        i += 1;
    }
    false
}

/// The three boxes meet pairwise, and so share a point.
pub open spec fn boxes_meet(a: AARectangle, b: AARectangle, c: AARectangle) -> bool {
    a.spec_overlaps(b) && a.spec_overlaps(c) && b.spec_overlaps(c)
}

/// Boxes that meet in the box of a node meet in the box of one of its
/// children.
pub proof fn lemma_boxes_meet_in_child(a: AARectangle, b: AARectangle, n: AARectangle) -> (c: int)
    requires
        n.wf(),
        a.x_min <= a.x_max,
        a.y_min <= a.y_max,
        b.x_min <= b.x_max,
        b.y_min <= b.y_max,
        boxes_meet(a, b, n),
    ensures
        0 <= c < 4,
        boxes_meet(a, b, n.spec_quadrants()[c]),
{
    let m = n.spec_centroid();
    let px = if a.x_min >= b.x_min && a.x_min >= n.x_min {
        a.x_min
    } else if b.x_min >= n.x_min {
        b.x_min
    } else {
        n.x_min
    };
    let py = if a.y_min >= b.y_min && a.y_min >= n.y_min {
        a.y_min
    } else if b.y_min >= n.y_min {
        b.y_min
    } else {
        n.y_min
    };
    if px >= m.0 {
        if py >= m.1 {
            0
        } else {
            3
        }
    } else {
        if py >= m.1 {
            1
        } else {
            2
        }
    }
}

/// The search finds exactly the edges that `e` meets and whose boxes meet
/// the box of `e` in the node's box.
pub proof fn lemma_finds_near<F: HazardFilter>(node: QTNode, hs: Seq<Hazard>, e: Edge, filter: F)
    requires
        node.structure_ok(),
        node.describes(hs),
    ensures
        node.finds(e, filter) == exists|i: int, j: int|
            #[trigger] edge_hit(hs, e, filter, i, j) && boxes_meet(
                e.spec_bbox(),
                edge_at(hs[i].shape.points@, j).spec_bbox(),
                node.bbox,
            ),
    decreases node.level,
{
    let near = |i: int, j: int|
        edge_hit(hs, e, filter, i, j) && boxes_meet(
            e.spec_bbox(),
            edge_at(hs[i].shape.points@, j).spec_bbox(),
            node.bbox,
        );
    if node.level == 0 {
        if node.finds(e, filter) {
            let (i, k) = choose|i: int, k: int|
                0 <= i < node.hazards@.len() && node.hazards@[i].active && filter.spec_is_relevant(
                    node.hazards@[i].entity,
                ) && 0 <= k < presence_edges(node.hazards@[i].presence@).len()
                    && e.spec_collides_with(
                    #[trigger] presence_edges(node.hazards@[i].presence@)[k],
                );
            let f = presence_edges(node.hazards@[i].presence@)[k];
            assert(entry_matches(node.hazards@[i], hs[i], node.bbox));
            let pts = hs[i].shape.points@;
            assert(edges_near(pts, node.bbox, pts.len()).contains(f));
            let j = lemma_listed_edge_is_near(pts, node.bbox, pts.len(), f);
            lemma_meeting_edges_overlap(e, f);
            assert(near(i, j));
        }
        if exists|i: int, j: int| #[trigger] edge_hit(hs, e, filter, i, j) && boxes_meet(
            e.spec_bbox(),
            edge_at(hs[i].shape.points@, j).spec_bbox(),
            node.bbox,
        ) {
            let (i, j) = choose|i: int, j: int| #[trigger] edge_hit(hs, e, filter, i, j) && boxes_meet(
                e.spec_bbox(),
                edge_at(hs[i].shape.points@, j).spec_bbox(),
                node.bbox,
            );
            let pts = hs[i].shape.points@;
            let f = edge_at(pts, j);
            lemma_near_edge_is_listed(pts, node.bbox, pts.len(), j);
            assert(entry_matches(node.hazards@[i], hs[i], node.bbox));
            let listed = presence_edges(node.hazards@[i].presence@);
            let k = choose|k: int| 0 <= k < listed.len() && listed[k] == f;
            assert(e.spec_collides_with(presence_edges(node.hazards@[i].presence@)[k]));
        }
    } else {
        if node.finds(e, filter) {
            let c = choose|c: int|
                0 <= c < node.children@.len() && (#[trigger] node.children@[c]).level < node.level
                    && node.children@[c].finds(e, filter);
            let child = node.children@[c];
            lemma_finds_near(child, hs, e, filter);
            let (i, j) = choose|i: int, j: int| #[trigger] edge_hit(hs, e, filter, i, j) && boxes_meet(
                e.spec_bbox(),
                edge_at(hs[i].shape.points@, j).spec_bbox(),
                child.bbox,
            );
            assert(child.bbox == node.bbox.spec_quadrants()[c]);
            assert(near(i, j));
        }
        if exists|i: int, j: int| #[trigger] edge_hit(hs, e, filter, i, j) && boxes_meet(
            e.spec_bbox(),
            edge_at(hs[i].shape.points@, j).spec_bbox(),
            node.bbox,
        ) {
            let (i, j) = choose|i: int, j: int| #[trigger] edge_hit(hs, e, filter, i, j) && boxes_meet(
                e.spec_bbox(),
                edge_at(hs[i].shape.points@, j).spec_bbox(),
                node.bbox,
            );
            let f = edge_at(hs[i].shape.points@, j);
            let c = lemma_boxes_meet_in_child(e.spec_bbox(), f.spec_bbox(), node.bbox);
            let child = node.children@[c];
            assert(child.bbox == node.bbox.spec_quadrants()[c]);
            lemma_finds_near(child, hs, e, filter);
            assert(edge_hit(hs, e, filter, i, j) && boxes_meet(
                e.spec_bbox(),
                edge_at(hs[i].shape.points@, j).spec_bbox(),
                child.bbox,
            ));
            assert(child.finds(e, filter));
        }
    }
}

/// For an edge within the box of the tree, the search from the root finds
/// an edge exactly where the edge meets an edge of a hazard that is active
/// and matters for the filter.
pub proof fn lemma_finds_exact<F: HazardFilter>(root: QTNode, hs: Seq<Hazard>, e: Edge, filter: F)
    requires
        root.structure_ok(),
        root.describes(hs),
        root.bbox.spec_contains(e.spec_bbox()),
    ensures
        root.finds(e, filter) == any_edge_hit(hs, e, filter),
{
    lemma_finds_near(root, hs, e, filter);
    if any_edge_hit(hs, e, filter) {
        let (i, j) = choose|i: int, j: int| #[trigger] edge_hit(hs, e, filter, i, j);
        let f = edge_at(hs[i].shape.points@, j);
        lemma_meeting_edges_overlap(e, f);
        assert(edge_hit(hs, e, filter, i, j) && boxes_meet(
            e.spec_bbox(),
            edge_at(hs[i].shape.points@, j).spec_bbox(),
            root.bbox,
        ));
    }
}

} // verus!
