//! The disk surrogate of a polygon.

use vstd::prelude::*;
use crate::geometry::aa_rectangle::AARectangle;
use crate::geometry::circle::Circle;
use crate::geometry::fail_fast::poi::{
    additional_poles_of_chain,
    poles_sound,
    spec_additional_poles,
};
use crate::geometry::geo_enums::Rounding;
use crate::geometry::outline::chain_ok;
use crate::geometry::point::{dist, Point};
use crate::util::config::SPSurrogateConfig;

verus! {

/// Disks inscribed in a polygon, which stand for it in cheap collision
/// tests.
#[derive(Debug)]
pub struct SPSurrogate {
    /// The pole of inaccessibility, then the other poles in the order in
    /// which a collision check should try them.
    pub poles: Vec<Circle>,
    /// A disk that holds every pole.
    pub poles_bounding_circle: Circle,
    /// How many of the poles a fast check looks at.
    pub n_ff_poles: usize,
}

/// What a surrogate holds, as mathematical values.
pub struct SurrogateView {
    pub poles: Seq<Circle>,
    pub poles_bounding_circle: Circle,
    pub n_ff_poles: usize,
}

impl View for SPSurrogate {
    type V = SurrogateView;

    open spec fn view(&self) -> SurrogateView {
        SurrogateView {
            poles: self.poles@,
            poles_bounding_circle: self.poles_bounding_circle,
            n_ff_poles: self.n_ff_poles,
        }
    }
}

/// The larger of two integers.
pub open spec fn max_int(a: int, b: int) -> int {
    if a >= b {
        a
    } else {
        b
    }
}

/// The largest distance, rounded up, from `center` to the far side of one of
/// the first `k` poles.
pub open spec fn max_reach(poles: Seq<Circle>, center: Point, k: nat) -> int
    decreases k,
{
    if k == 0 {
        0
    } else {
        max_int(
            max_reach(poles, center, (k - 1) as nat),
            dist(center, poles[k - 1].center, Rounding::Up) + poles[k - 1].radius,
        )
    }
}

/// The disk around the first pole's centre that reaches the far side of
/// every pole.
pub open spec fn spec_bounding_circle(poles: Seq<Circle>) -> Circle {
    Circle {
        center: poles[0].center,
        radius: max_reach(poles, poles[0].center, poles.len()) as i64,
    }
}

/// The smaller of two counts.
pub open spec fn min_usize(a: usize, b: usize) -> usize {
    if a <= b {
        a
    } else {
        b
    }
}

impl SurrogateView {
    /// The poles are sound for the chain through `points`, the bounding
    /// circle is theirs, and the fast check looks at no more poles than
    /// there are.
    pub open spec fn wf_for(self, points: Seq<Point>) -> bool {
        &&& self.poles.len() >= 1
        &&& poles_sound(points, self.poles)
        &&& self.poles_bounding_circle == spec_bounding_circle(self.poles)
        &&& self.poles_bounding_circle.radius == max_reach(
            self.poles,
            self.poles[0].center,
            self.poles.len(),
        )
        &&& self.poles_bounding_circle.wf()
        &&& self.n_ff_poles <= self.poles.len()
    }
}

/// The disk around the first pole's centre that holds every pole.
pub fn bounding_circle(poles: &Vec<Circle>) -> (c: Circle)
    requires
        poles@.len() >= 1,
        forall|i: int|
            0 <= i < poles@.len() ==> (#[trigger] poles@[i]).wf() && poles@[i].radius
                <= 0x1_0000_0000,
    ensures
        c == spec_bounding_circle(poles@),
        c.radius == max_reach(poles@, poles@[0].center, poles@.len()),
        c.wf(),
{
    let center: Point = poles[0].center;
    assert(poles@[0].wf());
    let mut reach: i64 = 0;
    let mut i: usize = 0;
    while i < poles.len()
        invariant
            i <= poles.len(),
            center.in_range(),
            forall|j: int|
                0 <= j < poles@.len() ==> (#[trigger] poles@[j]).wf() && poles@[j].radius
                    <= 0x1_0000_0000,
            reach == max_reach(poles@, center, i as nat),
            0 <= reach <= 0x2_0000_0000,
        decreases poles.len() - i,
    {
        let pole: Circle = poles[i];
        assert(poles@[i as int].wf());
        let d: i64 = center.distance(&pole.center, Rounding::Up) + pole.radius;
        if d > reach {
            reach = d;
        }
        i += 1;
    }
    Circle { center, radius: reach }
}

impl SPSurrogate {
    /// The surrogate of the chain through `points`, grown from its pole of
    /// inaccessibility as the options say.
    pub fn for_chain(
        points: &Vec<Point>,
        bbox: &AARectangle,
        double_area: u64,
        poi: Circle,
        config: SPSurrogateConfig,
    ) -> (s: SPSurrogate)
        requires
            chain_ok(points@),
            bbox.wf(),
            Point(bbox.x_min, bbox.y_min).is_vertex(),
            Point(bbox.x_max, bbox.y_max).is_vertex(),
            poles_sound(points@, seq![poi]),
            config.wf(),
        ensures
            s@.wf_for(points@),
            s@.poles == seq![poi] + spec_additional_poles(
                points@,
                *bbox,
                double_area as int,
                poi,
                config.max_poles,
                config.pole_coverage_goal as int,
            ),
            s@.n_ff_poles == min_usize(config.n_ff_poles, s@.poles.len() as usize),
    {
        let mut additional: Vec<Circle> = additional_poles_of_chain(
            points,
            bbox,
            double_area,
            poi,
            config.max_poles,
            config.pole_coverage_goal,
        );
        let ghost extra = additional@;
        let mut poles: Vec<Circle> = Vec::new();
        poles.push(poi);
        poles.append(&mut additional);
        assert(poles@ =~= seq![poi] + extra);
        let poles_bounding_circle: Circle = bounding_circle(&poles);
        let n_ff_poles: usize = if config.n_ff_poles <= poles.len() {
            config.n_ff_poles
        } else {
            poles.len()
        };
        SPSurrogate { poles, poles_bounding_circle, n_ff_poles }
    }

    /// A copy of the surrogate.
    pub fn clone_surrogate(&self) -> (r: SPSurrogate)
        ensures
            r@ == self@,
    {
        let mut poles: Vec<Circle> = Vec::new();
        let mut i: usize = 0;
        while i < self.poles.len()
            invariant
                i <= self.poles.len(),
                poles@ == self.poles@.subrange(0, i as int),
            decreases self.poles.len() - i,
        {
            poles.push(self.poles[i]);
            assert(poles@ =~= self.poles@.subrange(0, i as int + 1));
            i += 1;
        }
        assert(poles@ =~= self.poles@);
        SPSurrogate {
            poles,
            poles_bounding_circle: self.poles_bounding_circle,
            n_ff_poles: self.n_ff_poles,
        }
    }
}

} // verus!
