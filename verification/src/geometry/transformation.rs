//! Rigid motions of the lattice: a rotation followed by a translation.
//!
//! A rotation is held as the cosine and sine of its angle in fixed point,
//! with `ROT_ONE` standing for one. Rotated coordinates are rounded to the
//! nearest lattice point, halves away from zero, so that rotating the
//! opposite of a vector gives the opposite of the rotated vector.

use vstd::prelude::*;
use vstd::arithmetic::div_mod::lemma_fundamental_div_mod_converse;
use crate::geometry::arith::{lemma_mul_bound, mul_i64};
use crate::geometry::point::Point;

verus! {

/// The fixed-point value of one.
pub const ROT_ONE: i64 = 1_073_741_824;

/// Largest absolute value of a translation's component.
pub const TRANSLATION_MAX: i64 = 2_147_483_648;

/// `a / ROT_ONE`, rounded to the nearest integer, halves away from zero.
pub open spec fn round_scaled(a: int) -> int {
    if a >= 0 {
        (a + ROT_ONE / 2) / (ROT_ONE as int)
    } else {
        -((-a + ROT_ONE / 2) / (ROT_ONE as int))
    }
}

/// The first coordinate of the vector `(x, y)` after the rotation.
pub open spec fn rotated_x(cos: int, sin: int, x: int, y: int) -> int {
    round_scaled(cos * x - sin * y)
}

/// The second coordinate of the vector `(x, y)` after the rotation.
pub open spec fn rotated_y(cos: int, sin: int, x: int, y: int) -> int {
    round_scaled(sin * x + cos * y)
}

/// Rounding the opposite gives the opposite.
pub proof fn lemma_round_scaled_odd(a: int)
    ensures
        round_scaled(-a) == -round_scaled(a),
{
}

/// A whole multiple of one rounds to the multiplier.
pub proof fn lemma_round_scaled_exact(x: int)
    ensures
        round_scaled(ROT_ONE * x) == x,
{
    let one = ROT_ONE as int;
    if x >= 0 {
        assert(one * x + one / 2 == x * one + one / 2) by (nonlinear_arith);
        assert(one * x >= 0) by (nonlinear_arith)
            requires
                x >= 0,
                one > 0,
        ;
        lemma_fundamental_div_mod_converse(one * x + one / 2, one, x, one / 2);
    } else {
        assert(-(one * x) + one / 2 == (-x) * one + one / 2) by (nonlinear_arith);
        assert(one * x < 0) by (nonlinear_arith)
            requires
                x < 0,
                one > 0,
        ;
        lemma_fundamental_div_mod_converse(-(one * x) + one / 2, one, -x, one / 2);
    }
}

/// Rounds a scaled value to whole units.
pub fn round_scaled_exec(a: i128) -> (r: i64)
    requires
        -0x4000_0000_0000_0000 <= a <= 0x4000_0000_0000_0000,
    ensures
        r == round_scaled(a as int),
        -0x1_0000_0000 <= r <= 0x1_0000_0000,
{
    if a >= 0 {
        let n: u128 = (a + 536_870_912) as u128;
        let q: u128 = n / 1_073_741_824;
        assert(q <= 0x1_0000_0000);
        q as i64
    } else {
        let n: u128 = (-a + 536_870_912) as u128;
        let q: u128 = n / 1_073_741_824;
        assert(q <= 0x1_0000_0000);
        -(q as i64)
    }
}

/// A rotation about the origin followed by a translation.
#[derive(Clone, Copy, Debug, PartialEq, Eq, Structural)]
pub struct Transformation {
    /// Cosine of the angle, times `ROT_ONE`.
    pub cos: i64,
    /// Sine of the angle, times `ROT_ONE`.
    pub sin: i64,
    pub tx: i64,
    pub ty: i64,
}

/// A rotation about the origin, by the cosine and sine of its angle.
#[derive(Clone, Copy, Debug, PartialEq, Eq, Structural)]
pub struct Rotation {
    /// Cosine of the angle, times `ROT_ONE`.
    pub cos: i64,
    /// Sine of the angle, times `ROT_ONE`.
    pub sin: i64,
}

/// A motion given by its parts: the rotation and the translation that
/// follows it.
#[derive(Clone, Copy, Debug, PartialEq, Eq, Structural)]
pub struct DTransformation {
    pub rotation: Rotation,
    /// The vector of the translation.
    pub translation: Point,
}

impl Transformation {
    /// Cosine and sine are at most one in absolute value, and the
    /// translation is within `TRANSLATION_MAX`.
    pub open spec fn wf(self) -> bool {
        &&& -ROT_ONE <= self.cos <= ROT_ONE
        &&& -ROT_ONE <= self.sin <= ROT_ONE
        &&& -TRANSLATION_MAX <= self.tx <= TRANSLATION_MAX
        &&& -TRANSLATION_MAX <= self.ty <= TRANSLATION_MAX
    }

    /// No rotation: the cosine is one and the sine zero.
    pub open spec fn is_translation(self) -> bool {
        self.cos == ROT_ONE && self.sin == 0
    }

    /// Tells whether the values are in range.
    pub fn check(&self) -> (r: bool)
        ensures
            r == self.wf(),
    {
        -ROT_ONE <= self.cos && self.cos <= ROT_ONE && -ROT_ONE <= self.sin && self.sin <= ROT_ONE
            && -TRANSLATION_MAX <= self.tx && self.tx <= TRANSLATION_MAX && -TRANSLATION_MAX
            <= self.ty && self.ty <= TRANSLATION_MAX
    }

    /// The motion that moves nothing.
    pub open spec fn spec_empty() -> Transformation {
        Transformation { cos: ROT_ONE, sin: 0, tx: 0, ty: 0 }
    }

    pub fn empty() -> (t: Transformation)
        ensures
            t == Self::spec_empty(),
            t.wf(),
            t.is_translation(),
    {
        Transformation { cos: ROT_ONE, sin: 0, tx: 0, ty: 0 }
    }

    /// The translation by `(tx, ty)`, unless it is out of range.
    pub fn from_translation(tx: i64, ty: i64) -> (r: Option<Transformation>)
        ensures
            r == if (Transformation { cos: ROT_ONE, sin: 0, tx, ty }).wf() {
                Some(Transformation { cos: ROT_ONE, sin: 0, tx, ty })
            } else {
                None::<Transformation>
            },
    {
        let t: Transformation = Transformation { cos: ROT_ONE, sin: 0, tx, ty };
        if t.check() {
            Some(t)
        } else {
            None
        }
    }

    /// The motion with the given parts, unless they are out of range.
    pub fn from_dt(dt: &DTransformation) -> (r: Option<Transformation>)
        ensures
            r == if dt.spec_compose().wf() {
                Some(dt.spec_compose())
            } else {
                None::<Transformation>
            },
    {
        let t: Transformation = Transformation {
            cos: dt.rotation.cos,
            sin: dt.rotation.sin,
            tx: dt.translation.0,
            ty: dt.translation.1,
        };
        if t.check() {
            Some(t)
        } else {
            None
        }
    }

    /// Where the motion takes `p`.
    pub open spec fn spec_apply(self, p: Point) -> (int, int) {
        (
            rotated_x(self.cos as int, self.sin as int, p.0 as int, p.1 as int) + self.tx,
            rotated_y(self.cos as int, self.sin as int, p.0 as int, p.1 as int) + self.ty,
        )
    }

    /// Where the motion takes `p`; the image may lie out of range.
    pub fn apply(&self, p: &Point) -> (r: (i64, i64))
        requires
            self.wf(),
            -TRANSLATION_MAX <= p.0 <= TRANSLATION_MAX,
            -TRANSLATION_MAX <= p.1 <= TRANSLATION_MAX,
        ensures
            (r.0 as int, r.1 as int) == self.spec_apply(*p),
            -0x2_0000_0000 <= r.0 <= 0x2_0000_0000,
            -0x2_0000_0000 <= r.1 <= 0x2_0000_0000,
    {
        proof {
            lemma_mul_bound(self.cos as int, p.0 as int, 0x4000_0000, 0x8000_0000);
            lemma_mul_bound(self.sin as int, p.1 as int, 0x4000_0000, 0x8000_0000);
            lemma_mul_bound(self.sin as int, p.0 as int, 0x4000_0000, 0x8000_0000);
            lemma_mul_bound(self.cos as int, p.1 as int, 0x4000_0000, 0x8000_0000);
        }
        let rx: i64 = round_scaled_exec(mul_i64(self.cos, p.0) - mul_i64(self.sin, p.1));
        let ry: i64 = round_scaled_exec(mul_i64(self.sin, p.0) + mul_i64(self.cos, p.1));
        (rx + self.tx, ry + self.ty)
    }

    /// This motion followed by `other`, before any range check.
    pub open spec fn spec_then(self, other: Transformation) -> (int, int, int, int) {
        (
            round_scaled(other.cos * self.cos - other.sin * self.sin),
            round_scaled(other.sin * self.cos + other.cos * self.sin),
            rotated_x(other.cos as int, other.sin as int, self.tx as int, self.ty as int)
                + other.tx,
            rotated_y(other.cos as int, other.sin as int, self.tx as int, self.ty as int)
                + other.ty,
        )
    }

    /// Whether this motion followed by `other` is in range.
    pub open spec fn then_in_range(self, other: Transformation) -> bool {
        let t = self.spec_then(other);
        &&& -ROT_ONE <= t.0 <= ROT_ONE
        &&& -ROT_ONE <= t.1 <= ROT_ONE
        &&& -TRANSLATION_MAX <= t.2 <= TRANSLATION_MAX
        &&& -TRANSLATION_MAX <= t.3 <= TRANSLATION_MAX
    }

    /// This motion followed by `other`, or nothing where that is out of
    /// range.
    pub open spec fn spec_transform(self, other: Transformation) -> Option<Transformation> {
        let t = self.spec_then(other);
        if self.then_in_range(other) {
            Some(Transformation { cos: t.0 as i64, sin: t.1 as i64, tx: t.2 as i64, ty: t.3 as i64 })
        } else {
            None
        }
    }

    /// This motion followed by `other`.
    pub fn transform(&self, other: &Transformation) -> (r: Option<Transformation>)
        requires
            self.wf(),
            other.wf(),
        ensures
            r == self.spec_transform(*other),
            r.is_some() ==> r.unwrap().wf(),
    {
        proof {
            lemma_mul_bound(other.cos as int, self.cos as int, 0x4000_0000, 0x4000_0000);
            lemma_mul_bound(other.sin as int, self.sin as int, 0x4000_0000, 0x4000_0000);
            lemma_mul_bound(other.sin as int, self.cos as int, 0x4000_0000, 0x4000_0000);
            lemma_mul_bound(other.cos as int, self.sin as int, 0x4000_0000, 0x4000_0000);
        }
        let cos: i64 = round_scaled_exec(
            mul_i64(other.cos, self.cos) - mul_i64(other.sin, self.sin),
        );
        let sin: i64 = round_scaled_exec(
            mul_i64(other.sin, self.cos) + mul_i64(other.cos, self.sin),
        );
        let moved: (i64, i64) = Transformation { cos: other.cos, sin: other.sin, tx: 0, ty: 0 }.apply(
            &Point(self.tx, self.ty),
        );
        let tx: i64 = moved.0 + other.tx;
        let ty: i64 = moved.1 + other.ty;
        let t: Transformation = Transformation { cos, sin, tx, ty };
        if t.check() {
            Some(t)
        } else {
            None
        }
    }

    /// This motion followed by the motion with the given parts.
    pub fn transform_from_decomposed(&self, other: &DTransformation) -> (r: Option<Transformation>)
        requires
            self.wf(),
        ensures
            r == if other.spec_compose().wf() {
                self.spec_transform(other.spec_compose())
            } else {
                None::<Transformation>
            },
            r.is_some() ==> r.unwrap().wf(),
    {
        match Transformation::from_dt(other) {
            Some(t) => self.transform(&t),
            None => None,
        }
    }

    /// The motion that undoes this one, before any range check: the
    /// opposite rotation, and the opposite of the translation turned back.
    pub open spec fn spec_inverse_parts(self) -> (int, int, int, int) {
        (
            self.cos as int,
            -self.sin,
            -rotated_x(self.cos as int, -self.sin, self.tx as int, self.ty as int),
            -rotated_y(self.cos as int, -self.sin, self.tx as int, self.ty as int),
        )
    }

    /// The motion that undoes this one, or nothing where that is out of
    /// range.
    pub open spec fn spec_inverse(self) -> Option<Transformation> {
        let t = self.spec_inverse_parts();
        if -TRANSLATION_MAX <= t.2 <= TRANSLATION_MAX && -TRANSLATION_MAX <= t.3
            <= TRANSLATION_MAX {
            Some(Transformation { cos: t.0 as i64, sin: t.1 as i64, tx: t.2 as i64, ty: t.3 as i64 })
        } else {
            None
        }
    }

    /// The motion that undoes this one, up to rounding.
    pub fn inverse(&self) -> (r: Option<Transformation>)
        requires
            self.wf(),
        ensures
            r == self.spec_inverse(),
            r.is_some() ==> r.unwrap().wf(),
    {
        let back: Transformation = Transformation { cos: self.cos, sin: -self.sin, tx: 0, ty: 0 };
        let moved: (i64, i64) = back.apply(&Point(self.tx, self.ty));
        let t: Transformation = Transformation {
            cos: self.cos,
            sin: -self.sin,
            tx: -moved.0,
            ty: -moved.1,
        };
        if t.check() {
            Some(t)
        } else {
            None
        }
    }

    /// The parts of the motion.
    pub open spec fn spec_decompose(self) -> DTransformation {
        DTransformation {
            rotation: Rotation { cos: self.cos, sin: self.sin },
            translation: Point(self.tx, self.ty),
        }
    }

    pub fn decompose(&self) -> (d: DTransformation)
        ensures
            d == self.spec_decompose(),
            d.spec_compose() == *self,
    {
        DTransformation {
            rotation: Rotation { cos: self.cos, sin: self.sin },
            translation: Point(self.tx, self.ty),
        }
    }
}

impl DTransformation {
    /// The motion with the given rotation and translation.
    pub fn new(rotation: Rotation, translation: (i64, i64)) -> (d: DTransformation)
        ensures
            d == (DTransformation { rotation, translation: Point(translation.0, translation.1) }),
    {
        DTransformation { rotation, translation: Point(translation.0, translation.1) }
    }

    /// The motion that moves nothing.
    pub fn empty() -> (d: DTransformation)
        ensures
            d == (DTransformation {
                rotation: Rotation { cos: ROT_ONE, sin: 0 },
                translation: Point(0, 0),
            }),
    {
        DTransformation { rotation: Rotation { cos: ROT_ONE, sin: 0 }, translation: Point(0, 0) }
    }

    pub fn rotation(&self) -> (r: Rotation)
        ensures
            r == self.rotation,
    {
        self.rotation
    }

    pub fn translation(&self) -> (r: (i64, i64))
        ensures
            r == (self.translation.0, self.translation.1),
    {
        (self.translation.0, self.translation.1)
    }

    /// The motion made of the parts.
    pub open spec fn spec_compose(self) -> Transformation {
        Transformation {
            cos: self.rotation.cos,
            sin: self.rotation.sin,
            tx: self.translation.0,
            ty: self.translation.1,
        }
    }

    pub fn compose(&self) -> (t: Transformation)
        ensures
            t == self.spec_compose(),
            t.spec_decompose() == *self,
    {
        Transformation {
            cos: self.rotation.cos,
            sin: self.rotation.sin,
            tx: self.translation.0,
            ty: self.translation.1,
        }
    }
}

/// The rotation by nothing leaves a vector as it is.
pub proof fn lemma_identity_rotation(x: int, y: int)
    ensures
        rotated_x(ROT_ONE as int, 0, x, y) == x,
        rotated_y(ROT_ONE as int, 0, x, y) == y,
{
    assert(0 * y == 0 && 0 * x == 0);
    lemma_round_scaled_exact(x);
    lemma_round_scaled_exact(y);
}

/// Rotating the opposite of a vector gives the opposite of the rotated
/// vector.
pub proof fn lemma_rotation_odd(cos: int, sin: int, x: int, y: int)
    ensures
        rotated_x(cos, sin, -x, -y) == -rotated_x(cos, sin, x, y),
        rotated_y(cos, sin, -x, -y) == -rotated_y(cos, sin, x, y),
{
    assert(cos * (-x) - sin * (-y) == -(cos * x - sin * y)) by (nonlinear_arith);
    assert(sin * (-x) + cos * (-y) == -(sin * x + cos * y)) by (nonlinear_arith);
    lemma_round_scaled_odd(cos * x - sin * y);
    lemma_round_scaled_odd(sin * x + cos * y);
}

/// A rotation put together with the rotation by nothing, in either order,
/// is the rotation itself.
pub proof fn lemma_rotation_with_identity(cos: int, sin: int)
    ensures
        round_scaled(cos * ROT_ONE - sin * 0) == cos,
        round_scaled(sin * ROT_ONE + cos * 0) == sin,
        round_scaled(ROT_ONE * cos - 0 * sin) == cos,
        round_scaled(0 * cos + ROT_ONE * sin) == sin,
{
    assert(sin * 0 == 0 && cos * 0 == 0 && 0 * sin == 0 && 0 * cos == 0);
    assert(cos * ROT_ONE == ROT_ONE * cos) by (nonlinear_arith);
    assert(sin * ROT_ONE == ROT_ONE * sin) by (nonlinear_arith);
    lemma_round_scaled_exact(cos);
    lemma_round_scaled_exact(sin);
}

/// What following a motion by a translation, or a translation by a motion,
/// comes to; and what undoes a translation.
pub proof fn lemma_translation_algebra(t: Transformation, m: Transformation)
    requires
        t.is_translation(),
    ensures
        m.spec_then(t) == (m.cos as int, m.sin as int, m.tx + t.tx, m.ty + t.ty),
        t.spec_then(m) == (
            m.cos as int,
            m.sin as int,
            rotated_x(m.cos as int, m.sin as int, t.tx as int, t.ty as int) + m.tx,
            rotated_y(m.cos as int, m.sin as int, t.tx as int, t.ty as int) + m.ty,
        ),
        t.spec_inverse_parts() == (ROT_ONE as int, 0int, -t.tx, -t.ty),
{
    lemma_rotation_with_identity(m.cos as int, m.sin as int);
    lemma_identity_rotation(m.tx as int, m.ty as int);
    lemma_identity_rotation(t.tx as int, t.ty as int);
}

} // verus!
