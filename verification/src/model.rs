//! Point masses, links, and the rules that move a single point or a single
//! linked pair.
use vstd::prelude::*;
use crate::scalar::{
    fx_div, fx_max, fx_mul, sat_sub, spec_fx_div, spec_fx_max, spec_fx_mul, spec_sat_sub,
    EPSILON, HALF, SCALE, TWO,
};
use crate::vector::Vec2;

verus! {

/// A point mass. Its velocity is implied: `position - old_position`.
#[derive(Clone, Copy, Debug, PartialEq, Eq, Structural)]
pub struct Point {
    pub position: Vec2,
    pub old_position: Vec2,
    pub acceleration: Vec2,
    pub is_pinned: bool,
}

/// A link between two points, by their indices.
#[derive(Clone, Copy, Debug, PartialEq, Eq, Structural)]
pub struct Stick {
    pub point_a_idx: usize,
    pub point_b_idx: usize,
    pub length: i64,
    pub stiffness: i64,
    pub tear_resistance: i64,
}

impl Point {
    /// A free point at rest at `(x, y)`.
    pub open spec fn spec_new(x: i64, y: i64) -> Point {
        Point {
            position: Vec2 { x, y },
            old_position: Vec2 { x, y },
            acceleration: Vec2::spec_zero(),
            is_pinned: false,
        }
    }

    #[verifier::when_used_as_spec(spec_new)]
    pub fn new(x: i64, y: i64) -> (r: Point)
        ensures
            r == Point::spec_new(x, y),
    {
        let pos = Vec2::new(x, y);
        Point { position: pos, old_position: pos, acceleration: Vec2::zero(), is_pinned: false }
    }

    pub fn x(&self) -> (r: i64)
        ensures
            r == self.position.x,
    {
        self.position.x
    }

    pub fn y(&self) -> (r: i64)
        ensures
            r == self.position.y,
    {
        self.position.y
    }

    pub fn set_pinned(&mut self, pinned: bool)
        ensures
            *final(self) == (Point { is_pinned: pinned, ..*old(self) }),
    {
        self.is_pinned = pinned;
    }

    /// The point after gravity `g` was added to its accumulator; a pinned
    /// point takes none.
    pub open spec fn spec_with_gravity(self, g: Vec2) -> Point {
        if self.is_pinned {
            self
        } else {
            Point { acceleration: self.acceleration.spec_plus(g), ..self }
        }
    }

    /// The velocity that the point carries into the next step, after drag.
    pub open spec fn spec_damped_velocity(self, drag: i64) -> Vec2 {
        self.position.spec_minus(self.old_position).spec_scaled(spec_sat_sub(SCALE, drag))
    }

    /// One Verlet step over the time `dt`. The accumulator is consumed
    /// whether the point is pinned or not.
    pub open spec fn spec_integrated(self, drag: i64, dt: i64) -> Point {
        if self.is_pinned {
            Point { acceleration: Vec2::spec_zero(), ..self }
        } else {
            Point {
                position: self.position.spec_plus(self.spec_damped_velocity(drag)).spec_plus(
                    self.acceleration.spec_scaled(spec_fx_mul(dt, dt)),
                ),
                old_position: self.position,
                acceleration: Vec2::spec_zero(),
                is_pinned: false,
            }
        }
    }

    /// The point held inside `[0, width] x [0, height]`. On an axis where it
    /// was outside, it is put on the wall and its old position is set beyond
    /// the wall by the damped velocity, so that it leaves the wall reflected.
    pub open spec fn spec_confined(self, width: i64, height: i64, drag: i64) -> Point {
        if self.is_pinned {
            self
        } else {
            let v = self.spec_damped_velocity(drag);
            let (px, ox) = spec_confine_axis(self.position.x, self.old_position.x, v.x, width);
            let (py, oy) = spec_confine_axis(self.position.y, self.old_position.y, v.y, height);
            Point {
                position: Vec2 { x: px, y: py },
                old_position: Vec2 { x: ox, y: oy },
                ..self
            }
        }
    }

    #[verifier::when_used_as_spec(spec_with_gravity)]
    pub fn with_gravity(self, g: Vec2) -> (r: Point)
        ensures
            r == self.spec_with_gravity(g),
    {
        if self.is_pinned {
            self
        } else {
            Point {
                position: self.position,
                old_position: self.old_position,
                acceleration: self.acceleration.plus(g),
                is_pinned: false,
            }
        }
    }

    #[verifier::when_used_as_spec(spec_damped_velocity)]
    pub fn damped_velocity(self, drag: i64) -> (r: Vec2)
        ensures
            r == self.spec_damped_velocity(drag),
    {
        self.position.minus(self.old_position).scaled(sat_sub(SCALE, drag))
    }

    #[verifier::when_used_as_spec(spec_integrated)]
    pub fn integrated(self, drag: i64, dt: i64) -> (r: Point)
        ensures
            r == self.spec_integrated(drag, dt),
    {
        if self.is_pinned {
            Point {
                position: self.position,
                old_position: self.old_position,
                acceleration: Vec2::zero(),
                is_pinned: true,
            }
        } else {
            let velocity = self.damped_velocity(drag);
            let push = self.acceleration.scaled(fx_mul(dt, dt));
            Point {
                position: self.position.plus(velocity).plus(push),
                old_position: self.position,
                acceleration: Vec2::zero(),
                is_pinned: false,
            }
        }
    }

    #[verifier::when_used_as_spec(spec_confined)]
    pub fn confined(self, width: i64, height: i64, drag: i64) -> (r: Point)
        ensures
            r == self.spec_confined(width, height, drag),
    {
        if self.is_pinned {
            self
        } else {
            let v = self.damped_velocity(drag);
            let (px, ox) = confine_axis(self.position.x, self.old_position.x, v.x, width);
            let (py, oy) = confine_axis(self.position.y, self.old_position.y, v.y, height);
            Point {
                position: Vec2 { x: px, y: py },
                old_position: Vec2 { x: ox, y: oy },
                acceleration: self.acceleration,
                is_pinned: false,
            }
        }
    }
}

/// One axis of the wall rule: the new coordinate and the new old coordinate.
/// The lower wall is tested first.
pub open spec fn spec_confine_axis(pos: i64, old_pos: i64, velocity: i64, extent: i64) -> (
    i64,
    i64,
) {
    if pos < 0 {
        (0i64, crate::scalar::spec_sat_add(0, velocity))
    } else if pos > extent {
        (extent, crate::scalar::spec_sat_add(extent, velocity))
    } else {
        (pos, old_pos)
    }
}

#[verifier::when_used_as_spec(spec_confine_axis)]
pub fn confine_axis(pos: i64, old_pos: i64, velocity: i64, extent: i64) -> (r: (i64, i64))
    ensures
        r == spec_confine_axis(pos, old_pos, velocity, extent),
{
    if pos < 0 {
        (0, crate::scalar::sat_add(0, velocity))
    } else if pos > extent {
        (extent, crate::scalar::sat_add(extent, velocity))
    } else {
        (pos, old_pos)
    }
}

impl Stick {
    pub fn new(
        point_a_idx: usize,
        point_b_idx: usize,
        length: i64,
        stiffness: i64,
        tear_resistance: i64,
    ) -> (r: Stick)
        ensures
            r == (Stick { point_a_idx, point_b_idx, length, stiffness, tear_resistance }),
    {
        Stick { point_a_idx, point_b_idx, length, stiffness, tear_resistance }
    }

    pub fn point_a(&self) -> (r: usize)
        ensures
            r == self.point_a_idx,
    {
        self.point_a_idx
    }

    pub fn point_b(&self) -> (r: usize)
        ensures
            r == self.point_b_idx,
    {
        self.point_b_idx
    }

    /// The link breaks when its ends are further apart than its rest length
    /// times its tear ratio.
    pub open spec fn spec_is_torn(self, a: Point, b: Point) -> bool {
        a.position.spec_distance(b.position) > spec_fx_mul(self.length, self.tear_resistance)
    }

    /// The displacement that brings each end half of the way to the rest
    /// length, scaled by the stiffness.
    pub open spec fn spec_correction(self, a: Point, b: Point) -> Vec2 {
        let delta = b.position.spec_minus(a.position);
        let distance = delta.spec_length();
        let diff = spec_fx_div(spec_sat_sub(self.length, distance), spec_fx_max(distance, EPSILON));
        delta.spec_scaled(HALF).spec_scaled(diff).spec_scaled(self.stiffness)
    }

    /// The two ends after one relaxation of an unbroken link. Two free ends
    /// share the correction; a free end linked to a pinned one takes it twice;
    /// a pinned end never moves.
    pub open spec fn spec_relaxed(self, a: Point, b: Point) -> (Point, Point) {
        let c = self.spec_correction(a, b);
        if !a.is_pinned && !b.is_pinned {
            (
                Point { position: a.position.spec_minus(c), ..a },
                Point { position: b.position.spec_plus(c), ..b },
            )
        } else if !a.is_pinned {
            (Point { position: a.position.spec_minus(c.spec_scaled(TWO)), ..a }, b)
        } else if !b.is_pinned {
            (a, Point { position: b.position.spec_plus(c.spec_scaled(TWO)), ..b })
        } else {
            (a, b)
        }
    }

    #[verifier::when_used_as_spec(spec_is_torn)]
    pub fn is_torn(self, a: Point, b: Point) -> (r: bool)
        ensures
            r == self.spec_is_torn(a, b),
    {
        a.position.distance(b.position) > fx_mul(self.length, self.tear_resistance)
    }

    #[verifier::when_used_as_spec(spec_correction)]
    pub fn correction(self, a: Point, b: Point) -> (r: Vec2)
        ensures
            r == self.spec_correction(a, b),
    {
        let delta = b.position.minus(a.position);
        let distance: i64 = delta.length();
        let diff: i64 = fx_div(sat_sub(self.length, distance), fx_max(distance, EPSILON));
        delta.scaled(HALF).scaled(diff).scaled(self.stiffness)
    }

    #[verifier::when_used_as_spec(spec_relaxed)]
    pub fn relaxed(self, a: Point, b: Point) -> (r: (Point, Point))
        ensures
            r == self.spec_relaxed(a, b),
    {
        let c = self.correction(a, b);
        if !a.is_pinned && !b.is_pinned {
            (
                Point {
                    position: a.position.minus(c),
                    old_position: a.old_position,
                    acceleration: a.acceleration,
                    is_pinned: false,
                },
                Point {
                    position: b.position.plus(c),
                    old_position: b.old_position,
                    acceleration: b.acceleration,
                    is_pinned: false,
                },
            )
        } else if !a.is_pinned {
            (
                Point {
                    position: a.position.minus(c.scaled(TWO)),
                    old_position: a.old_position,
                    acceleration: a.acceleration,
                    is_pinned: false,
                },
                b,
            )
        } else if !b.is_pinned {
            (
                a,
                Point {
                    position: b.position.plus(c.scaled(TWO)),
                    old_position: b.old_position,
                    acceleration: b.acceleration,
                    is_pinned: false,
                },
            )
        } else {
            (a, b)
        }
    }
}

} // verus!
