//! Lattice points, direction vectors and wall segments.
//!
//! Every coordinate is an integer, so every test the ray caster makes on
//! them is exact: nothing is rounded and no tolerance is involved.

use vstd::prelude::*;

verus! {

/// A point of the integer lattice.
#[derive(Clone, Copy, Debug, PartialEq, Eq, Structural)]
pub struct Point {
    pub x: i32,
    pub y: i32,
}

impl Point {
    /// The point `(x, y)`.
    pub fn new(x: i32, y: i32) -> (p: Point)
        ensures
            p == (Point { x, y }),
    {
        Point { x, y }
    }
}

/// A direction in the plane, given by a vector of any positive length.
///
/// Two vectors that differ by a positive factor point the same way. The
/// zero vector points nowhere: a ray that carries it meets nothing.
#[derive(Clone, Copy, Debug, PartialEq, Eq, Structural)]
pub struct Direction {
    pub dx: i16,
    pub dy: i16,
}

impl Direction {
    /// The direction of the vector `(dx, dy)`.
    pub fn new(dx: i16, dy: i16) -> (d: Direction)
        ensures
            d == (Direction { dx, dy }),
    {
        Direction { dx, dy }
    }

    /// The squared length of the vector.
    pub open spec fn norm2(self) -> int {
        self.dx * self.dx + self.dy * self.dy
    }

    /// The cross product with `other`: positive where `other` lies to the
    /// left of this vector, zero where the two are parallel.
    pub open spec fn cross(self, other: Direction) -> int {
        self.dx * other.dy - self.dy * other.dx
    }

    /// The dot product with `other`: positive where the two are less than
    /// a quarter turn apart.
    pub open spec fn dot(self, other: Direction) -> int {
        self.dx * other.dx + self.dy * other.dy
    }
}

/// A wall: the straight segment between two endpoints.
///
/// A segment is made once and read from then on; nothing in this crate
/// changes one.
#[derive(Clone, Copy, Debug, PartialEq, Eq, Structural)]
pub struct Segment {
    pub a: Point,
    pub b: Point,
}

impl Segment {
    /// The segment from `a` to `b`.
    pub fn new(a: Point, b: Point) -> (s: Segment)
        ensures
            s == (Segment { a, b }),
    {
        Segment { a, b }
    }
}

} // verus!
