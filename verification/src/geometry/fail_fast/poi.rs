//! Poles of inaccessibility: the largest disks that fit inside a polygon and
//! outside the disks found before.

use std::collections::VecDeque;
use vstd::prelude::*;
use crate::geometry::aa_rectangle::AARectangle;
use crate::geometry::circle::Circle;
use crate::geometry::geo_enums::{GeoPosition, Rounding};
use crate::geometry::outline::{
    chain_contains,
    chain_distance,
    chain_ok,
    compute_contains,
    compute_distance,
    edge_at,
    min_edge_distance,
    min_int,
    DISTANCE_INF,
};
use crate::geometry::arith::{
    floor_root,
    is_floor_root,
    lemma_floor_root_exists,
    lemma_mul_bound,
    lemma_square_monotone,
};
use crate::geometry::point::{sq_dist, Point};
use crate::geometry::simple_polygon::SimplePolygon;
use crate::util::config::MAX_POLES;

verus! {

/// Depth of the search tree below its root.
pub const MAX_POI_TREE_DEPTH: usize = 10;

/// Raised when no lattice disk of positive radius fits.
#[derive(Clone, Copy, Debug, PartialEq, Eq, Structural)]
pub struct DegeneratePolygon;

/// A square of the search tree.
#[derive(Clone, Copy, Debug, PartialEq, Eq, Structural)]
pub struct POINode {
    /// How many more times the square may be split.
    pub level: usize,
    pub bbox: AARectangle,
    /// No point of the square is farther than this from its centroid.
    pub radius: i64,
    /// Distance from the centroid to the nearest border, rounded down;
    /// negated when the centroid is outside the feasible region.
    pub distance: i64,
}

/// Every pole is a well-formed circle.
pub open spec fn poles_ok(poles: Seq<Circle>) -> bool {
    forall|i: int| 0 <= i < poles.len() ==> (#[trigger] poles[i]).wf()
}

/// `p` lies in none of the first `k` poles.
pub open spec fn outside_poles(poles: Seq<Circle>, p: Point, k: int) -> bool {
    forall|i: int| 0 <= i < k ==> !(#[trigger] poles[i]).spec_collides_with(p)
}

/// The smallest distance, rounded down, from `p` to the border of one of the
/// first `k` poles, or `DISTANCE_INF` for `k == 0`.
pub open spec fn min_pole_distance(poles: Seq<Circle>, p: Point, k: nat) -> int
    decreases k,
{
    if k == 0 {
        DISTANCE_INF as int
    } else {
        min_int(
            min_pole_distance(poles, p, (k - 1) as nat),
            poles[k - 1].spec_border_distance(p, Rounding::Down),
        )
    }
}

/// Whether `p` is inside the chain and outside every pole.
pub open spec fn feasible(points: Seq<Point>, poles: Seq<Circle>, p: Point) -> bool {
    chain_contains(points, p) && outside_poles(poles, p, poles.len() as int)
}

/// The distance from `p` to the nearest border, an edge of the chain or a
/// pole's circle, rounded down; negated where `p` is not feasible.
pub open spec fn signed_border_distance(points: Seq<Point>, poles: Seq<Circle>, p: Point) -> int {
    let d = min_int(
        chain_distance(points, p, Rounding::Down),
        min_pole_distance(poles, p, poles.len()),
    );
    if feasible(points, poles, p) {
        d
    } else {
        -d
    }
}

/// The node that the search makes of a square.
pub open spec fn spec_node(
    points: Seq<Point>,
    poles: Seq<Circle>,
    bbox: AARectangle,
    level: usize,
) -> POINode {
    POINode {
        level,
        bbox,
        radius: bbox.spec_radius() as i64,
        distance: signed_border_distance(points, poles, bbox.spec_centroid()) as i64,
    }
}

/// The four children of a node, in the order of its square's quadrants.
pub open spec fn spec_children(points: Seq<Point>, poles: Seq<Circle>, node: POINode) -> Seq<
    POINode,
> {
    let q = node.bbox.spec_quadrants();
    let l = (node.level - 1) as usize;
    seq![
        spec_node(points, poles, q[0], l),
        spec_node(points, poles, q[1], l),
        spec_node(points, poles, q[2], l),
        spec_node(points, poles, q[3], l),
    ]
}

/// The radius of the best disk so far; zero when there is none.
pub open spec fn best_radius(best: Option<Circle>) -> int {
    match best {
        Some(c) => c.radius as int,
        None => 0,
    }
}

/// The best disk after `node` has been looked at: the node's own where it is
/// strictly larger.
pub open spec fn improve(best: Option<Circle>, node: POINode) -> Option<Circle> {
    if node.distance > best_radius(best) {
        Some(Circle { center: node.bbox.spec_centroid(), radius: node.distance })
    } else {
        best
    }
}

/// Whether some point of the node's square may still beat `best`, and the
/// node may be split.
pub open spec fn worth_splitting(best: Option<Circle>, node: POINode) -> bool {
    node.radius + node.distance > best_radius(best) && node.level > 0
}

/// Number of nodes of a full tree with `level` levels below its root.
pub open spec fn subtree_size(level: nat) -> nat
    decreases level,
{
    if level == 0 {
        1
    } else {
        1 + 4 * subtree_size((level - 1) as nat)
    }
}

/// Number of nodes that the queue can still give rise to.
pub open spec fn queue_weight(queue: Seq<POINode>) -> nat
    decreases queue.len(),
{
    if queue.len() == 0 {
        0
    } else {
        subtree_size(queue[0].level as nat) + queue_weight(queue.subrange(1, queue.len() as int))
    }
}

/// The weight of two queues put together is the sum of their weights.
pub proof fn lemma_weight_append(a: Seq<POINode>, b: Seq<POINode>)
    ensures
        queue_weight(a + b) == queue_weight(a) + queue_weight(b),
    decreases a.len(),
{
    if a.len() == 0 {
        assert(a + b =~= b);
    } else {
        let rest = a.subrange(1, a.len() as int);
        assert((a + b).subrange(1, (a + b).len() as int) =~= rest + b);
        lemma_weight_append(rest, b);
    }
}

/// Four nodes of one level weigh four subtrees of that level.
pub proof fn lemma_weight_children(points: Seq<Point>, poles: Seq<Circle>, node: POINode)
    requires
        node.level > 0,
    ensures
        queue_weight(spec_children(points, poles, node)) == 4 * subtree_size(
            (node.level - 1) as nat,
        ),
{
    let c = spec_children(points, poles, node);
    let c1 = c.subrange(1, 4);
    let c2 = c1.subrange(1, 3);
    let c3 = c2.subrange(1, 2);
    let c4 = c3.subrange(1, 1);
    assert(c4.len() == 0);
    assert(queue_weight(c4) == 0);
    assert(queue_weight(c3) == subtree_size(c3[0].level as nat) + queue_weight(c4));
    assert(queue_weight(c2) == subtree_size(c2[0].level as nat) + queue_weight(c3));
    assert(queue_weight(c1) == subtree_size(c1[0].level as nat) + queue_weight(c2));
    assert(queue_weight(c) == subtree_size(c[0].level as nat) + queue_weight(c1));
}

/// The queue after its first node has been handled.
pub open spec fn next_queue(
    points: Seq<Point>,
    poles: Seq<Circle>,
    queue: Seq<POINode>,
    best: Option<Circle>,
) -> Seq<POINode> {
    let node = queue[0];
    let rest = queue.subrange(1, queue.len() as int);
    if worth_splitting(improve(best, node), node) {
        rest + spec_children(points, poles, node)
    } else {
        rest
    }
}

/// Handling the first node makes the queue lighter.
pub proof fn lemma_next_queue_lighter(
    points: Seq<Point>,
    poles: Seq<Circle>,
    queue: Seq<POINode>,
    best: Option<Circle>,
)
    requires
        queue.len() > 0,
    ensures
        queue_weight(next_queue(points, poles, queue, best)) < queue_weight(queue),
{
    let node = queue[0];
    let rest = queue.subrange(1, queue.len() as int);
    if worth_splitting(improve(best, node), node) {
        lemma_weight_append(rest, spec_children(points, poles, node));
        lemma_weight_children(points, poles, node);
    }
}

/// The outcome of the breadth-first search that starts with the given queue
/// and best disk: nodes are taken from the front, each may improve the best
/// disk, and the children of those worth splitting join at the back.
pub open spec fn search(
    points: Seq<Point>,
    poles: Seq<Circle>,
    queue: Seq<POINode>,
    best: Option<Circle>,
) -> Option<Circle>
    decreases queue_weight(queue),
    via search_decreases
{
    if queue.len() == 0 {
        best
    } else {
        search(points, poles, next_queue(points, poles, queue, best), improve(best, queue[0]))
    }
}

#[via_fn]
proof fn search_decreases(
    points: Seq<Point>,
    poles: Seq<Circle>,
    queue: Seq<POINode>,
    best: Option<Circle>,
) {
    if queue.len() > 0 {
        lemma_next_queue_lighter(points, poles, queue, best);
    }
}

/// The root of the search for a chain with the given bounding box.
pub open spec fn spec_root(points: Seq<Point>, poles: Seq<Circle>, bbox: AARectangle) -> POINode {
    spec_node(points, poles, bbox.spec_inflate_to_square(), MAX_POI_TREE_DEPTH)
}

/// The next pole of a chain with the given bounding box: the outcome of the
/// search from the root.
pub open spec fn spec_next_pole(points: Seq<Point>, poles: Seq<Circle>, bbox: AARectangle) -> Option<
    Circle,
> {
    search(points, poles, seq![spec_root(points, poles, bbox)], None)
}

/// The disk has its centre inside the chain and outside every pole, and
/// reaches neither an edge nor a pole: rounded down, the centre's distance to
/// each is at least the radius.
pub open spec fn inscribed(points: Seq<Point>, poles: Seq<Circle>, c: Circle) -> bool {
    &&& chain_contains(points, c.center)
    &&& forall|i: int|
        0 <= i < points.len() ==> (#[trigger] edge_at(points, i)).spec_distance(
            c.center,
            Rounding::Down,
        ) >= c.radius
    &&& forall|j: int|
        0 <= j < poles.len() ==> !(#[trigger] poles[j]).spec_collides_with(c.center)
            && poles[j].spec_border_distance(c.center, Rounding::Down) >= c.radius
}

/// The smallest of the first `k` edge distances is no larger than any of them.
pub proof fn lemma_min_edge_distance_lower(points: Seq<Point>, p: Point, k: nat, i: int)
    requires
        0 <= i < k,
    ensures
        min_edge_distance(points, p, Rounding::Down, k) <= edge_at(points, i).spec_distance(
            p,
            Rounding::Down,
        ),
    decreases k,
{
    if i < k - 1 {
        lemma_min_edge_distance_lower(points, p, (k - 1) as nat, i);
    }
}

/// The smallest of the first `k` pole distances is no larger than any of them.
pub proof fn lemma_min_pole_distance_lower(poles: Seq<Circle>, p: Point, k: nat, j: int)
    requires
        0 <= j < k,
    ensures
        min_pole_distance(poles, p, k) <= poles[j].spec_border_distance(p, Rounding::Down),
    decreases k,
{
    if j < k - 1 {
        lemma_min_pole_distance_lower(poles, p, (k - 1) as nat, j);
    }
}

/// A node with a positive distance gives an inscribed disk.
pub proof fn lemma_positive_node_inscribed(
    points: Seq<Point>,
    poles: Seq<Circle>,
    bbox: AARectangle,
    level: usize,
)
    requires
        signed_border_distance(points, poles, bbox.spec_centroid()) > 0,
        signed_border_distance(points, poles, bbox.spec_centroid()) <= i64::MAX,
        min_int(
            chain_distance(points, bbox.spec_centroid(), Rounding::Down),
            min_pole_distance(poles, bbox.spec_centroid(), poles.len()),
        ) >= 0,
    ensures
        inscribed(
            points,
            poles,
            Circle {
                center: bbox.spec_centroid(),
                radius: spec_node(points, poles, bbox, level).distance,
            },
        ),
{
    let p = bbox.spec_centroid();
    let d = signed_border_distance(points, poles, p);
    let m = min_int(
        chain_distance(points, p, Rounding::Down),
        min_pole_distance(poles, p, poles.len()),
    );
    assert(feasible(points, poles, p));
    assert forall|i: int| 0 <= i < points.len() implies (#[trigger] edge_at(
        points,
        i,
    )).spec_distance(p, Rounding::Down) >= d by {
        lemma_min_edge_distance_lower(points, p, points.len(), i);
    }
    assert forall|j: int| 0 <= j < poles.len() implies !(#[trigger] poles[j]).spec_collides_with(p)
        && poles[j].spec_border_distance(p, Rounding::Down) >= d by {
        lemma_min_pole_distance_lower(poles, p, poles.len(), j);
    }
}

impl POINode {
    /// The node of the square `bbox` for the chain through `points`.
    pub fn for_chain(bbox: AARectangle, level: usize, points: &Vec<Point>, poles: &[Circle]) -> (n:
        POINode)
        requires
            bbox.wf(),
            chain_ok(points@),
            poles_ok(poles@),
        ensures
            n == spec_node(points@, poles@, bbox, level),
            0 <= n.radius <= 0x1_0000_0000,
            -0x1_0000_0000 <= n.distance <= 0x1_0000_0000,
            n.distance > 0 ==> inscribed(
                points@,
                poles@,
                Circle { center: bbox.spec_centroid(), radius: n.distance },
            ),
    {
        let radius: i64 = bbox.radius();
        let c: Point = bbox.centroid();
        let mut inside: bool = compute_contains(points, &c);
        let mut d: i64 = compute_distance(points, &c, Rounding::Down);
        let mut i: usize = 0;
        while i < poles.len()
            invariant
                i <= poles.len(),
                poles_ok(poles@),
                c.in_range(),
                inside == (chain_contains(points@, c) && outside_poles(poles@, c, i as int)),
                d == min_int(
                    chain_distance(points@, c, Rounding::Down),
                    min_pole_distance(poles@, c, i as nat),
                ),
                0 <= d <= 0x1_0000_0000,
            decreases poles.len() - i,
        {
            let pole: Circle = poles[i];
            assert(poles@[i as int].wf());
            let r: (GeoPosition, i64) = pole.distance_from_border(&c, Rounding::Down);
            match r.0 {
                GeoPosition::Interior => {
                    inside = false;
                },
                GeoPosition::Exterior => {},
            }
            if r.1 < d {
                d = r.1;
            }
            i += 1;
        }
        let distance: i64 = if inside {
            d
        } else {
            -d
        };
        proof {
            if distance > 0 {
                lemma_positive_node_inscribed(points@, poles@, bbox, level);
            }
        }
        POINode { level, bbox, radius, distance }
    }

    /// The four children of the node, or none at the last level.
    pub fn split_chain(&self, points: &Vec<Point>, poles: &[Circle]) -> (r: Option<[POINode; 4]>)
        requires
            self.bbox.wf(),
            chain_ok(points@),
            poles_ok(poles@),
        ensures
            self.level == 0 ==> r.is_none(),
            self.level > 0 ==> r.is_some() && r.unwrap()@ == spec_children(points@, poles@, *self),
            self.level > 0 ==> queue_ok(points@, poles@, r.unwrap()@),
    {
        if self.level == 0 {
            None
        } else {
            let q: [AARectangle; 4] = self.bbox.quadrants();
            assert(q@[0].wf() && q@[1].wf() && q@[2].wf() && q@[3].wf());
            let l: usize = self.level - 1;
            let children: [POINode; 4] = [
                POINode::for_chain(q[0], l, points, poles),
                POINode::for_chain(q[1], l, points, poles),
                POINode::for_chain(q[2], l, points, poles),
                POINode::for_chain(q[3], l, points, poles),
            ];
            assert(children@ =~= spec_children(points@, poles@, *self));
            Some(children)
        }
    }

    /// An upper bound on the distance to the border of any point of the
    /// node's square.
    pub open spec fn spec_distance_upperbound(self) -> int {
        self.radius + self.distance
    }

    pub fn distance_upperbound(&self) -> (r: i64)
        requires
            -0x1_0000_0000 <= self.radius <= 0x1_0000_0000,
            -0x1_0000_0000 <= self.distance <= 0x1_0000_0000,
        ensures
            r == self.spec_distance_upperbound(),
    {
        self.radius + self.distance
    }
}

/// The nodes of a queue are those that the search makes of their squares.
pub open spec fn queue_ok(points: Seq<Point>, poles: Seq<Circle>, queue: Seq<POINode>) -> bool {
    forall|i: int|
        0 <= i < queue.len() ==> {
            &&& (#[trigger] queue[i]).bbox.wf()
            &&& queue[i] == spec_node(points, poles, queue[i].bbox, queue[i].level)
            &&& 0 <= queue[i].radius <= 0x1_0000_0000
            &&& -0x1_0000_0000 <= queue[i].distance <= 0x1_0000_0000
            &&& queue[i].distance > 0 ==> inscribed(
                points,
                poles,
                Circle { center: queue[i].bbox.spec_centroid(), radius: queue[i].distance },
            )
        }
}

/// What holds of the best disk at any moment of a search.
pub open spec fn best_ok(points: Seq<Point>, poles: Seq<Circle>, best: Option<Circle>) -> bool {
    match best {
        Some(c) => c.wf() && 0 < c.radius <= 0x1_0000_0000 && inscribed(points, poles, c),
        None => true,
    }
}

/// Finds the largest disk inside the chain and outside `poles` among the
/// centroids of the search tree over the chain's inflated bounding box.
pub fn next_pole_of_chain(points: &Vec<Point>, bbox: &AARectangle, poles: &[Circle]) -> (r: Option<
    Circle,
>)
    requires
        chain_ok(points@),
        poles_ok(poles@),
        bbox.wf(),
        Point(bbox.x_min, bbox.y_min).is_vertex(),
        Point(bbox.x_max, bbox.y_max).is_vertex(),
    ensures
        r == spec_next_pole(points@, poles@, *bbox),
        best_ok(points@, poles@, r),
{
    let square: AARectangle = bbox.inflate_to_square();
    let root: POINode = POINode::for_chain(square, MAX_POI_TREE_DEPTH, points, poles);
    let mut queue: VecDeque<POINode> = VecDeque::new();
    queue.push_back(root);
    let mut best: Option<Circle> = None;
    assert(queue@ =~= seq![root]);
    while queue.len() > 0
        invariant
            chain_ok(points@),
            poles_ok(poles@),
            queue_ok(points@, poles@, queue@),
            best_ok(points@, poles@, best),
            search(points@, poles@, queue@, best) == spec_next_pole(points@, poles@, *bbox),
        decreases queue_weight(queue@),
    {
        let ghost queue0 = queue@;
        let ghost best0 = best;
        let node: POINode = queue.pop_front().unwrap();
        assert(node == queue0[0]);
        assert(node.bbox.wf());
        let current: i64 = match best {
            Some(c) => c.radius,
            None => 0,
        };
        let mut threshold: i64 = current;
        if node.distance > current {
            let center: Point = node.bbox.centroid();
            best = Some(Circle { center, radius: node.distance });
            threshold = node.distance;
        }
        assert(best == improve(best0, node));
        assert(threshold == best_radius(best));
        if node.distance_upperbound() > threshold {
            match node.split_chain(points, poles) {
                Some(children) => {
                    proof {
                        let q = node.bbox.spec_quadrants();
                        assert(q[0].wf() && q[1].wf() && q[2].wf() && q[3].wf()) by {
                            let qq = node.bbox.spec_quadrants();
                            assert(qq[0].wf());
                            assert(qq[1].wf());
                            assert(qq[2].wf());
                            assert(qq[3].wf());
                        }
                    }
                    queue.push_back(children[0]);
                    queue.push_back(children[1]);
                    queue.push_back(children[2]);
                    queue.push_back(children[3]);
                    assert(queue@ =~= queue0.subrange(1, queue0.len() as int) + spec_children(
                        points@,
                        poles@,
                        node,
                    ));
                },
                None => {},
            }
        }
        proof {
            assert(queue@ =~= next_queue(points@, poles@, queue0, best0));
            lemma_next_queue_lighter(points@, poles@, queue0, best0);
        }
    }
    best
}

/// The two disks share no interior point: their centres are at least the sum
/// of their radii apart.
pub open spec fn disjoint_disks(a: Circle, b: Circle) -> bool {
    sq_dist(a.center, b.center) >= (a.radius + b.radius) * (a.radius + b.radius)
}

/// Every pole is a disk of positive radius inscribed in the chain, and no two
/// of them share an interior point.
pub open spec fn poles_sound(points: Seq<Point>, poles: Seq<Circle>) -> bool {
    &&& forall|i: int|
        0 <= i < poles.len() ==> {
            &&& (#[trigger] poles[i]).wf()
            &&& 0 < poles[i].radius <= 0x1_0000_0000
            &&& inscribed(points, Seq::<Circle>::empty(), poles[i])
        }
    &&& forall|i: int, j: int|
        0 <= i < poles.len() && 0 <= j < poles.len() && i != j ==> disjoint_disks(
            #[trigger] poles[i],
            #[trigger] poles[j],
        )
}

/// Two disks are disjoint whichever is named first.
pub proof fn lemma_disjoint_symmetric(a: Circle, b: Circle)
    requires
        disjoint_disks(a, b),
    ensures
        disjoint_disks(b, a),
{
    let dx = a.center.0 - b.center.0;
    let dy = a.center.1 - b.center.1;
    assert((-dx) * (-dx) == dx * dx) by (nonlinear_arith);
    assert((-dy) * (-dy) == dy * dy) by (nonlinear_arith);
    assert((a.radius + b.radius) * (a.radius + b.radius) == (b.radius + a.radius) * (b.radius
        + a.radius));
}

/// A disk whose centre is outside a pole, at a distance from its circle that
/// is at least its own radius when rounded down, is disjoint from the pole.
pub proof fn lemma_far_is_disjoint(pole: Circle, c: Circle)
    requires
        pole.radius >= 0,
        c.radius >= 0,
        !pole.spec_collides_with(c.center),
        pole.spec_border_distance(c.center, Rounding::Down) >= c.radius,
    ensures
        disjoint_disks(pole, c),
        disjoint_disks(c, pole),
{
    let sq = sq_dist(pole.center, c.center);
    assert(sq >= 0) by (nonlinear_arith)
        requires
            sq == (pole.center.0 - c.center.0) * (pole.center.0 - c.center.0) + (pole.center.1
                - c.center.1) * (pole.center.1 - c.center.1),
    ;
    lemma_floor_root_exists(sq);
    let f = floor_root(sq);
    assert(is_floor_root(sq, f));
    let k = pole.radius + c.radius;
    assert(f >= k);
    lemma_square_monotone(k, f);
    lemma_disjoint_symmetric(pole, c);
}

/// A disk inscribed beside sound poles can join them.
pub proof fn lemma_poles_sound_push(points: Seq<Point>, poles: Seq<Circle>, c: Circle)
    requires
        poles_sound(points, poles),
        c.wf(),
        0 < c.radius <= 0x1_0000_0000,
        inscribed(points, poles, c),
    ensures
        poles_sound(points, poles.push(c)),
{
    let next = poles.push(c);
    assert(inscribed(points, Seq::<Circle>::empty(), c));
    assert forall|i: int, j: int|
        0 <= i < next.len() && 0 <= j < next.len() && i != j implies disjoint_disks(
        #[trigger] next[i],
        #[trigger] next[j],
    ) by {
        if i == poles.len() {
            assert(poles[j].wf());
            lemma_far_is_disjoint(poles[j], c);
        } else if j == poles.len() {
            assert(poles[i].wf());
            lemma_far_is_disjoint(poles[i], c);
        } else {
            assert(disjoint_disks(poles[i], poles[j]));
        }
    }
    assert forall|i: int| 0 <= i < next.len() implies {
        &&& (#[trigger] next[i]).wf()
        &&& 0 < next[i].radius <= 0x1_0000_0000
        &&& inscribed(points, Seq::<Circle>::empty(), next[i])
    } by {
        if i < poles.len() {
            assert(poles[i].wf());
        }
    }
}

/// Whether disks whose squared radii add up to `sum_sq_radii` cover the share
/// `goal`, in thousandths, of a polygon of twice the area `double_area`. The
/// area of a disk is taken as 355/113 times its squared radius.
pub open spec fn coverage_reached(sum_sq_radii: int, double_area: int, goal: int) -> bool {
    710_000 * sum_sq_radii >= 113 * goal * double_area
}

/// The poles after at most `remaining` more searches: each search adds the
/// next pole, and the searching stops where none is left or the coverage
/// goal is reached.
pub open spec fn spec_grow_poles(
    points: Seq<Point>,
    bbox: AARectangle,
    double_area: int,
    goal: int,
    poles: Seq<Circle>,
    sum_sq_radii: int,
    remaining: nat,
) -> Seq<Circle>
    decreases remaining,
{
    if remaining == 0 {
        poles
    } else {
        match spec_next_pole(points, poles, bbox) {
            None => poles,
            Some(c) => {
                let sum = sum_sq_radii + c.radius * c.radius;
                if coverage_reached(sum, double_area, goal) {
                    poles.push(c)
                } else {
                    spec_grow_poles(
                        points,
                        bbox,
                        double_area,
                        goal,
                        poles.push(c),
                        sum,
                        (remaining - 1) as nat,
                    )
                }
            },
        }
    }
}

/// The rank of a pole among those still to be ordered: its squared radius
/// times its distance, rounded down, to the nearest border of a pole already
/// ordered or of the pole of inaccessibility.
pub open spec fn pole_score(sorted: Seq<Circle>, poi: Circle, c: Circle) -> int {
    c.radius * c.radius * min_int(
        min_pole_distance(sorted, c.center, sorted.len()),
        poi.spec_border_distance(c.center, Rounding::Down),
    )
}

/// The index, among the first `k` poles of `unsorted`, of the last one whose
/// score is the highest.
pub open spec fn best_scoring(unsorted: Seq<Circle>, sorted: Seq<Circle>, poi: Circle, k: nat) -> int
    decreases k,
{
    if k <= 1 {
        0
    } else {
        let b = best_scoring(unsorted, sorted, poi, (k - 1) as nat);
        if pole_score(sorted, poi, unsorted[k - 1]) >= pole_score(sorted, poi, unsorted[b]) {
            k - 1
        } else {
            b
        }
    }
}

/// The poles in the order in which a collision check should try them: again
/// and again the best scoring of those left is moved to the end of `sorted`.
pub open spec fn spec_reorder(unsorted: Seq<Circle>, sorted: Seq<Circle>, poi: Circle) -> Seq<
    Circle,
>
    decreases unsorted.len(),
{
    if unsorted.len() == 0 {
        sorted
    } else {
        let i = best_scoring(unsorted, sorted, poi, unsorted.len());
        if 0 <= i < unsorted.len() {
            spec_reorder(unsorted.remove(i), sorted.push(unsorted[i]), poi)
        } else {
            sorted
        }
    }
}

/// The poles beside the pole of inaccessibility, in the order of a collision
/// check.
pub open spec fn spec_additional_poles(
    points: Seq<Point>,
    bbox: AARectangle,
    double_area: int,
    poi: Circle,
    max_poles: usize,
    goal: int,
) -> Seq<Circle> {
    let all = spec_grow_poles(
        points,
        bbox,
        double_area,
        goal,
        seq![poi],
        poi.radius * poi.radius,
        max_poles as nat,
    );
    spec_reorder(all.subrange(1, all.len() as int), Seq::<Circle>::empty(), poi)
}

/// The smallest distance, rounded down, from `p` to the border of one of the
/// poles.
pub fn min_distance_to_poles(poles: &[Circle], p: &Point) -> (d: i64)
    requires
        poles_ok(poles@),
        p.in_range(),
    ensures
        d == min_pole_distance(poles@, *p, poles@.len()),
        0 <= d,
        poles@.len() > 0 ==> d <= 0x2_0000_0000,
{
    let mut d: i64 = DISTANCE_INF;
    let mut i: usize = 0;
    while i < poles.len()
        invariant
            i <= poles.len(),
            poles_ok(poles@),
            p.in_range(),
            d == min_pole_distance(poles@, *p, i as nat),
            0 <= d,
            i > 0 ==> d <= 0x2_0000_0000,
        decreases poles.len() - i,
    {
        let pole: Circle = poles[i];
        assert(poles@[i as int].wf());
        let r: (GeoPosition, i64) = pole.distance_from_border(p, Rounding::Down);
        if r.1 < d {
            d = r.1;
        }
        i += 1;
    }
    d
}

/// The score of `c` among the poles still to be ordered.
pub fn score_pole(sorted: &[Circle], poi: &Circle, c: &Circle) -> (s: u128)
    requires
        poles_ok(sorted@),
        poi.wf(),
        c.wf(),
    ensures
        s == pole_score(sorted@, *poi, *c),
{
    let d0: i64 = min_distance_to_poles(sorted, &c.center);
    let r: (GeoPosition, i64) = poi.distance_from_border(&c.center, Rounding::Down);
    let d: i64 = if r.1 < d0 {
        r.1
    } else {
        d0
    };
    proof {
        lemma_mul_bound(c.radius as int, c.radius as int, 0x2_0000_0000, 0x2_0000_0000);
        assert(c.radius * c.radius >= 0) by (nonlinear_arith);
        lemma_mul_bound(
            c.radius * c.radius,
            d as int,
            0x4_0000_0000_0000_0000,
            0x2_0000_0000,
        );
        assert(c.radius * c.radius * d >= 0) by (nonlinear_arith)
            requires
                c.radius * c.radius >= 0,
                d >= 0,
        ;
    }
    let r2: u128 = (c.radius as u128) * (c.radius as u128);
    r2 * (d as u128)
}

/// Moving one pole from among those still to be ordered to the end of those
/// ordered keeps the whole sound.
pub proof fn lemma_move_keeps_sound(
    points: Seq<Point>,
    head: Seq<Circle>,
    unsorted: Seq<Circle>,
    i: int,
)
    requires
        0 <= i < unsorted.len(),
        poles_sound(points, head + unsorted),
    ensures
        poles_sound(points, head.push(unsorted[i]) + unsorted.remove(i)),
{
    let old_all = head + unsorted;
    let new_all = head.push(unsorted[i]) + unsorted.remove(i);
    let m = head.len() as int;
    let f = |a: int| -> int {
        if a < m {
            a
        } else if a == m {
            m + i
        } else if a <= m + i {
            a - 1
        } else {
            a
        }
    };
    assert forall|a: int| 0 <= a < new_all.len() implies 0 <= f(a) < old_all.len()
        && #[trigger] new_all[a] == old_all[f(a)] by {}
    assert forall|a: int| 0 <= a < new_all.len() implies {
        &&& (#[trigger] new_all[a]).wf()
        &&& 0 < new_all[a].radius <= 0x1_0000_0000
        &&& inscribed(points, Seq::<Circle>::empty(), new_all[a])
    } by {
        assert(new_all[a] == old_all[f(a)]);
        assert(old_all[f(a)].wf());
    }
    assert forall|a: int, b: int|
        0 <= a < new_all.len() && 0 <= b < new_all.len() && a != b implies disjoint_disks(
        #[trigger] new_all[a],
        #[trigger] new_all[b],
    ) by {
        assert(new_all[a] == old_all[f(a)]);
        assert(new_all[b] == old_all[f(b)]);
        assert(f(a) != f(b));
        assert(disjoint_disks(old_all[f(a)], old_all[f(b)]));
    }
}

/// Generates the poles of a chain beside its pole of inaccessibility and
/// orders them for collision checks.
pub fn additional_poles_of_chain(
    points: &Vec<Point>,
    bbox: &AARectangle,
    double_area: u64,
    poi: Circle,
    max_poles: usize,
    goal: u16,
) -> (r: Vec<Circle>)
    requires
        chain_ok(points@),
        bbox.wf(),
        Point(bbox.x_min, bbox.y_min).is_vertex(),
        Point(bbox.x_max, bbox.y_max).is_vertex(),
        poles_sound(points@, seq![poi]),
        max_poles <= MAX_POLES,
        goal <= 1000,
    ensures
        r@ == spec_additional_poles(
            points@,
            *bbox,
            double_area as int,
            poi,
            max_poles,
            goal as int,
        ),
        r@.len() <= max_poles,
        poles_sound(points@, seq![poi] + r@),
{
    let mut all: Vec<Circle> = Vec::new();
    all.push(poi);
    assert(all@ =~= seq![poi]);
    proof {
        assert(seq![poi][0].wf());
        lemma_mul_bound(poi.radius as int, poi.radius as int, 0x2_0000_0000, 0x2_0000_0000);
        assert(poi.radius * poi.radius >= 0) by (nonlinear_arith);
    }
    let mut sum: u128 = (poi.radius as u128) * (poi.radius as u128);
    let mut k: usize = 0;
    let mut done: bool = false;
    let ghost target = spec_grow_poles(
        points@,
        *bbox,
        double_area as int,
        goal as int,
        seq![poi],
        poi.radius * poi.radius,
        max_poles as nat,
    );
    while k < max_poles && !done
        invariant
            chain_ok(points@),
            bbox.wf(),
            Point(bbox.x_min, bbox.y_min).is_vertex(),
            Point(bbox.x_max, bbox.y_max).is_vertex(),
            max_poles <= MAX_POLES,
            goal <= 1000,
            k <= max_poles,
            all@.len() >= 1,
            all@[0] == poi,
            all@.len() <= k + 1,
            poles_sound(points@, all@),
            sum <= all@.len() * 0x4_0000_0000_0000_0000,
            done ==> target == all@,
            !done ==> target == spec_grow_poles(
                points@,
                *bbox,
                double_area as int,
                goal as int,
                all@,
                sum as int,
                (max_poles - k) as nat,
            ),
        decreases max_poles - k, (if done { 0int } else { 1int }),
    {
        let ghost before = all@;
        let next: Option<Circle> = next_pole_of_chain(points, bbox, all.as_slice());
        match next {
            None => {
                done = true;
            },
            Some(c) => {
                proof {
                    lemma_mul_bound(c.radius as int, c.radius as int, 0x2_0000_0000, 0x2_0000_0000);
                    assert(c.radius * c.radius >= 0) by (nonlinear_arith);
                    lemma_poles_sound_push(points@, before, c);
                }
                sum = sum + (c.radius as u128) * (c.radius as u128);
                all.push(c);
                k += 1;
                let weight: u128 = 113 * (goal as u128);
                proof {
                    lemma_mul_bound(
                        weight as int,
                        double_area as int,
                        113_000,
                        0x1_0000_0000_0000_0000,
                    );
                }
                if 710_000 * sum >= weight * (double_area as u128) {
                    done = true;
                }
            },
        }
    }
    let mut unsorted: Vec<Circle> = all.split_off(1);
    let mut sorted: Vec<Circle> = Vec::new();
    proof {
        assert(all@ =~= seq![poi]);
        assert(unsorted@ =~= target.subrange(1, target.len() as int));
        assert(seq![poi] + sorted@ + unsorted@ =~= target);
    }
    let ghost additional = unsorted@;
    while unsorted.len() > 0
        invariant
            poi.wf(),
            poles_sound(points@, seq![poi] + sorted@ + unsorted@),
            sorted@.len() + unsorted@.len() == additional.len(),
            spec_reorder(unsorted@, sorted@, poi) == spec_reorder(
                additional,
                Seq::<Circle>::empty(),
                poi,
            ),
        decreases unsorted.len(),
    {
        let ghost whole = seq![poi] + sorted@ + unsorted@;
        proof {
            assert forall|j: int| 0 <= j < sorted@.len() implies (#[trigger] sorted@[j]).wf() by {
                assert(whole[1 + j] == sorted@[j]);
            }
            assert forall|j: int| 0 <= j < unsorted@.len() implies (#[trigger] unsorted@[j]).wf() by {
                assert(whole[1 + sorted@.len() + j] == unsorted@[j]);
            }
        }
        let n: usize = unsorted.len();
        let mut best_i: usize = 0;
        let mut best_score: u128 = score_pole(sorted.as_slice(), &poi, &unsorted[0]);
        let mut i: usize = 1;
        while i < n
            invariant
                n == unsorted.len(),
                1 <= i <= n,
                poi.wf(),
                poles_ok(sorted@),
                poles_ok(unsorted@),
                best_i == best_scoring(unsorted@, sorted@, poi, i as nat),
                best_i < i,
                best_score == pole_score(sorted@, poi, unsorted@[best_i as int]),
            decreases n - i,
        {
            let s: u128 = score_pole(sorted.as_slice(), &poi, &unsorted[i]);
            if s >= best_score {
                best_i = i;
                best_score = s;
            }
            i += 1;
        }
        let ghost u0 = unsorted@;
        let ghost s0 = sorted@;
        let c: Circle = unsorted.remove(best_i);
        sorted.push(c);
        proof {
            lemma_move_keeps_sound(points@, seq![poi] + s0, u0, best_i as int);
            assert((seq![poi] + s0).push(u0[best_i as int]) + u0.remove(best_i as int) =~= seq![poi]
                + sorted@ + unsorted@);
            assert(seq![poi] + s0 + u0 =~= (seq![poi] + s0) + u0);
        }
    }
    proof {
        assert(seq![poi] + sorted@ + unsorted@ =~= seq![poi] + sorted@);
    }
    sorted
}

impl POINode {
    /// The node of the square `bbox` for the polygon `poly`.
    pub fn new(bbox: AARectangle, level: usize, poly: &SimplePolygon, poles: &[Circle]) -> (n:
        POINode)
        requires
            bbox.wf(),
            poly.wf(),
            poles_ok(poles@),
        ensures
            n == spec_node(poly.points@, poles@, bbox, level),
            n.distance > 0 ==> inscribed(
                poly.points@,
                poles@,
                Circle { center: bbox.spec_centroid(), radius: n.distance },
            ),
    {
        POINode::for_chain(bbox, level, &poly.points, poles)
    }

    /// The four children of the node, in the order of its square's
    /// quadrants, or none at the last level.
    pub fn split(&self, poly: &SimplePolygon, poles: &[Circle]) -> (r: Option<[POINode; 4]>)
        requires
            self.bbox.wf(),
            poly.wf(),
            poles_ok(poles@),
        ensures
            self.level == 0 ==> r.is_none(),
            self.level > 0 ==> r.is_some() && r.unwrap()@ == spec_children(
                poly.points@,
                poles@,
                *self,
            ),
    {
        self.split_chain(&poly.points, poles)
    }
}

/// Finds the largest disk that fits inside `shape` and outside every disk of
/// `poles`, among the disks around the centroids of the search tree over the
/// shape's bounding box.
///
/// The disk found has a positive radius, its centre lies inside the shape and
/// outside every pole, and, rounded down, the centre's distance to every edge
/// and to every pole's circle is at least its radius.
pub fn generate_next_pole(shape: &SimplePolygon, poles: &[Circle]) -> (r: Result<
    Circle,
    DegeneratePolygon,
>)
    requires
        shape.wf(),
        poles_ok(poles@),
    ensures
        r == match spec_next_pole(shape.points@, poles@, shape.bbox) {
            Some(c) => Ok::<Circle, DegeneratePolygon>(c),
            None => Err::<Circle, DegeneratePolygon>(DegeneratePolygon),
        },
        match r {
            Ok(c) => c.wf() && c.radius > 0 && inscribed(shape.points@, poles@, c),
            Err(_) => true,
        },
{
    match next_pole_of_chain(&shape.points, &shape.bbox, poles) {
        Some(c) => Ok(c),
        None => Err(DegeneratePolygon),
    }
}

/// Generates up to `max_poles` poles for `shape` beside its pole of
/// inaccessibility, until their area reaches the share `coverage_goal`, in
/// thousandths, of the shape's, and orders them for collision checks.
///
/// Together with the pole of inaccessibility the poles are sound: each is
/// inscribed in the shape and no two share an interior point.
pub fn generate_additional_surrogate_poles(
    shape: &SimplePolygon,
    max_poles: usize,
    coverage_goal: u16,
) -> (r: Vec<Circle>)
    requires
        shape.wf(),
        max_poles <= MAX_POLES,
        coverage_goal <= 1000,
    ensures
        r@ == spec_additional_poles(
            shape.points@,
            shape.bbox,
            shape@.double_area(),
            shape.poi,
            max_poles,
            coverage_goal as int,
        ),
        r@.len() <= max_poles,
        poles_sound(shape.points@, seq![shape.poi] + r@),
{
    let area: u64 = shape.double_area();
    additional_poles_of_chain(&shape.points, &shape.bbox, area, shape.poi, max_poles, coverage_goal)
}

} // verus!
