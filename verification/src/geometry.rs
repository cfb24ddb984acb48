//! Plane geometry on integer coordinates.
//!
//! All lengths are in milli-units: one unit of track space is 1000 here,
//! so the integer arithmetic below is exact and free of rounding.

use vstd::prelude::*;

verus! {

/// A point or vector of the plane, in milli-units.
#[derive(PartialEq, Eq, Structural, Clone, Copy, Debug)]
pub struct Vec2i {
    pub x: i64,
    pub y: i64,
}

impl Vec2i {
    pub fn new(x: i64, y: i64) -> (v: Vec2i)
        ensures
            v.x == x,
            v.y == y,
    {
        Vec2i { x, y }
    }

    /// The zero vector.
    pub fn zero() -> (v: Vec2i)
        ensures
            v.x == 0,
            v.y == 0,
    {
        Vec2i { x: 0, y: 0 }
    }
}

/// The value `v` forced into the closed interval `[lo, hi]`.
pub open spec fn spec_clamp(v: int, lo: int, hi: int) -> int {
    if v < lo {
        lo
    } else if v > hi {
        hi
    } else {
        v
    }
}

/// Clamps `v` to `[lo, hi]`.
pub fn clamp_i64(v: i64, lo: i64, hi: i64) -> (r: i64)
    requires
        lo <= hi,
    ensures
        r == spec_clamp(v as int, lo as int, hi as int),
        lo <= r <= hi,
{
    if v < lo {
        lo
    } else if v > hi {
        hi
    } else {
        v
    }
}

/// A polygonal object placed on the map: an obstacle, a start region or
/// a finish region. The polygon's points are relative to `position`.
pub struct VectorObject {
    pub position: Vec2i,
    pub polygon: Vec<Vec2i>,
}

/// Mathematical model of a `VectorObject`.
#[verifier::ext_equal]
pub struct VectorObjectModel {
    pub position: Vec2i,
    pub polygon: Seq<Vec2i>,
}

impl View for VectorObject {
    type V = VectorObjectModel;

    open spec fn view(&self) -> VectorObjectModel {
        VectorObjectModel { position: self.position, polygon: self.polygon@ }
    }
}

impl Clone for VectorObject {
    fn clone(&self) -> (res: Self)
        ensures
            res@ == self@,
    {
        let res = VectorObject { position: self.position, polygon: self.polygon.clone() };
        proof {
            assert(res.polygon@ =~= self.polygon@);
            assert(res@ =~= self@);
        }
        res
    }
}

} // verus!
