//! Two-dimensional fixed-point vectors.
use vstd::prelude::*;
use crate::scalar::{
    floor_sqrt, fx_mul, isqrt, sat, sat_add, sat_sub, spec_fx_mul, spec_sat_add, spec_sat_sub,
    spec_square, square,
};

verus! {

/// A vector of two fixed-point scalars.
#[derive(Clone, Copy, Debug, PartialEq, Eq, Structural)]
pub struct Vec2 {
    pub x: i64,
    pub y: i64,
}

impl Vec2 {
    pub open spec fn spec_zero() -> Vec2 {
        Vec2 { x: 0, y: 0 }
    }

    /// Component-wise saturating sum.
    pub open spec fn spec_plus(self, o: Vec2) -> Vec2 {
        Vec2 { x: spec_sat_add(self.x, o.x), y: spec_sat_add(self.y, o.y) }
    }

    /// Component-wise saturating difference.
    pub open spec fn spec_minus(self, o: Vec2) -> Vec2 {
        Vec2 { x: spec_sat_sub(self.x, o.x), y: spec_sat_sub(self.y, o.y) }
    }

    /// Both components multiplied by the scalar `k`.
    pub open spec fn spec_scaled(self, k: i64) -> Vec2 {
        Vec2 { x: spec_fx_mul(self.x, k), y: spec_fx_mul(self.y, k) }
    }

    /// Sum of the squares of the raw components, exact.
    pub open spec fn spec_length_squared(self) -> int {
        spec_square(self.x) + spec_square(self.y)
    }

    /// Euclidean length, rounded down to the next scalar.
    pub open spec fn spec_length(self) -> i64 {
        sat(floor_sqrt(self.spec_length_squared()))
    }

    /// Squared length of the saturating difference of the two vectors.
    pub open spec fn spec_distance_squared(self, o: Vec2) -> int {
        self.spec_minus(o).spec_length_squared()
    }

    /// Length of the saturating difference of the two vectors.
    pub open spec fn spec_distance(self, o: Vec2) -> i64 {
        self.spec_minus(o).spec_length()
    }

    pub fn new(x: i64, y: i64) -> (r: Vec2)
        ensures
            r == (Vec2 { x, y }),
    {
        Vec2 { x, y }
    }

    #[verifier::when_used_as_spec(spec_zero)]
    pub fn zero() -> (r: Vec2)
        ensures
            r == Vec2::spec_zero(),
    {
        Vec2 { x: 0, y: 0 }
    }

    #[verifier::when_used_as_spec(spec_plus)]
    pub fn plus(self, o: Vec2) -> (r: Vec2)
        ensures
            r == self.spec_plus(o),
    {
        Vec2 { x: sat_add(self.x, o.x), y: sat_add(self.y, o.y) }
    }

    #[verifier::when_used_as_spec(spec_minus)]
    pub fn minus(self, o: Vec2) -> (r: Vec2)
        ensures
            r == self.spec_minus(o),
    {
        Vec2 { x: sat_sub(self.x, o.x), y: sat_sub(self.y, o.y) }
    }

    #[verifier::when_used_as_spec(spec_scaled)]
    pub fn scaled(self, k: i64) -> (r: Vec2)
        ensures
            r == self.spec_scaled(k),
    {
        Vec2 { x: fx_mul(self.x, k), y: fx_mul(self.y, k) }
    }

    pub fn length_squared(self) -> (r: u128)
        ensures
            r as int == self.spec_length_squared(),
    {
        square(self.x) + square(self.y)
    }

    #[verifier::when_used_as_spec(spec_length)]
    pub fn length(self) -> (r: i64)
        ensures
            r == self.spec_length(),
    {
        let root: u128 = isqrt(self.length_squared());
        if root > 0x7fff_ffff_ffff_ffff {
            i64::MAX
        } else {
            root as i64
        }
    }

    pub fn distance_squared(self, o: Vec2) -> (r: u128)
        ensures
            r as int == self.spec_distance_squared(o),
    {
        self.minus(o).length_squared()
    }

    #[verifier::when_used_as_spec(spec_distance)]
    pub fn distance(self, o: Vec2) -> (r: i64)
        ensures
            r == self.spec_distance(o),
    {
        self.minus(o).length()
    }
}

} // verus!
