//! Rays, and the exact test of a ray against a wall.
//!
//! The ray is taken as the line through its origin `(x3, y3)` and the point
//! one direction vector further, `(x4, y4)`; the wall as the line through
//! its endpoints `(x1, y1)` and `(x2, y2)`. Cramer's rule gives the
//! crossing of the two lines as a pair of fractions over one denominator:
//! `t`, the place along the wall, and `u`, the place along the ray. All
//! three numbers are integers here, so the fractions are never divided
//! out: they are compared by their signs and by cross-multiplying.

use vstd::prelude::*;
use crate::geometry::{Direction, Point, Segment};
use crate::arith::{lemma_fraction_signs, lemma_product_bound};
use crate::heading::{heading, FULL_TURN};

verus! {

/// A half-line: it starts at `origin` and runs along `dir` without end.
#[derive(Clone, Copy, Debug, PartialEq, Eq, Structural)]
pub struct Ray {
    pub origin: Point,
    pub dir: Direction,
}

/// Where a ray meets a wall, as fractions over the common denominator
/// `scale`, which is positive.
///
/// The point is `(x / scale, y / scale)`. It lies `reach / scale`
/// direction vectors away from the ray's origin.
#[derive(Clone, Copy, Debug, PartialEq, Eq, Structural)]
pub struct Hit {
    pub x: i128,
    pub y: i128,
    pub reach: i128,
    pub scale: i128,
}

impl Ray {
    /// The denominator shared by `t` and `u`. It is zero exactly when the
    /// ray and the wall are parallel.
    pub open spec fn den(self, wall: Segment) -> int {
        let (x1, y1, x2, y2) = (wall.a.x as int, wall.a.y as int, wall.b.x as int, wall.b.y as int);
        let (x3, y3) = (self.origin.x as int, self.origin.y as int);
        let (x4, y4) = (x3 + self.dir.dx, y3 + self.dir.dy);
        (x1 - x2) * (y3 - y4) - (y1 - y2) * (x3 - x4)
    }

    /// The numerator of `t`, the place along the wall: `t` is 0 at the
    /// wall's first endpoint and 1 at its second.
    pub open spec fn t_num(self, wall: Segment) -> int {
        let (x1, y1) = (wall.a.x as int, wall.a.y as int);
        let (x3, y3) = (self.origin.x as int, self.origin.y as int);
        let (x4, y4) = (x3 + self.dir.dx, y3 + self.dir.dy);
        (x1 - x3) * (y3 - y4) - (y1 - y3) * (x3 - x4)
    }

    /// The numerator of `u`, the place along the ray: `u` is 0 at the
    /// origin and grows along the direction.
    pub open spec fn u_num(self, wall: Segment) -> int {
        let (x1, y1, x2, y2) = (wall.a.x as int, wall.a.y as int, wall.b.x as int, wall.b.y as int);
        let (x3, y3) = (self.origin.x as int, self.origin.y as int);
        -((x1 - x2) * (y1 - y3) - (y1 - y2) * (x1 - x3))
    }

    /// The ray meets the wall: the lines are not parallel, `0 < t < 1` and
    /// `u > 0`. Both wall endpoints and the ray's own origin are left out.
    pub open spec fn meets(self, wall: Segment) -> bool {
        let den = self.den(wall);
        let t = self.t_num(wall);
        let u = self.u_num(wall);
        &&& den != 0
        &&& 0 < t * den < den * den
        &&& 0 < u * den
    }

    /// The crossing of the two lines, for lines that are not parallel:
    /// the point `(x1 + t (x2 - x1), y1 + t (y2 - y1))`, with the signs
    /// turned so that the denominator is positive.
    pub open spec fn crossing(self, wall: Segment) -> Hit {
        let den = self.den(wall);
        let t = self.t_num(wall);
        let u = self.u_num(wall);
        let x = wall.a.x * den + t * (wall.b.x - wall.a.x);
        let y = wall.a.y * den + t * (wall.b.y - wall.a.y);
        if den < 0 {
            Hit { x: (-x) as i128, y: (-y) as i128, reach: (-u) as i128, scale: (-den) as i128 }
        } else {
            Hit { x: x as i128, y: y as i128, reach: u as i128, scale: den as i128 }
        }
    }

    /// What `cast` returns: the crossing where the ray meets the wall,
    /// nothing where it does not.
    pub open spec fn cast_spec(self, wall: Segment) -> Option<Hit> {
        if self.meets(wall) {
            Some(self.crossing(wall))
        } else {
            None
        }
    }
}

impl Ray {
    /// The ray that starts at `origin` and points along the heading of
    /// `degrees`, taken modulo a full turn.
    pub fn new(origin: Point, degrees: u16) -> (ray: Ray)
        ensures
            ray.origin == origin,
            ray.dir == heading((degrees % FULL_TURN) as int),
    {
        Ray { origin, dir: Direction::from_degrees(degrees) }
    }

    /// Tests the ray against one wall.
    ///
    /// Returns the crossing if the ray meets the wall strictly between the
    /// wall's endpoints and strictly ahead of its own origin, however far
    /// ahead. A ray parallel to the wall meets nothing, even where it runs
    /// along it.
    pub fn cast(&self, wall: &Segment) -> (hit: Option<Hit>)
        ensures
            hit == self.cast_spec(*wall),
    {
        let x1 = wall.a.x as i128;
        let y1 = wall.a.y as i128;
        let x2 = wall.b.x as i128;
        let y2 = wall.b.y as i128;

        let x3 = self.origin.x as i128;
        let y3 = self.origin.y as i128;
        let x4 = x3 + self.dir.dx as i128;
        let y4 = y3 + self.dir.dy as i128;

        proof {
            lemma_product_bound(x1 - x2, y3 - y4, 0xffff_ffff, 0x8000);
            lemma_product_bound(y1 - y2, x3 - x4, 0xffff_ffff, 0x8000);
            lemma_product_bound(x1 - x3, y3 - y4, 0xffff_ffff, 0x8000);
            lemma_product_bound(y1 - y3, x3 - x4, 0xffff_ffff, 0x8000);
            lemma_product_bound(x1 - x2, y1 - y3, 0xffff_ffff, 0xffff_ffff);
            lemma_product_bound(y1 - y2, x1 - x3, 0xffff_ffff, 0xffff_ffff);
        }
        let den = (x1 - x2) * (y3 - y4) - (y1 - y2) * (x3 - x4);
        if den == 0 {
            return None;
        }
        let t = (x1 - x3) * (y3 - y4) - (y1 - y3) * (x3 - x4);
        let u = -((x1 - x2) * (y1 - y3) - (y1 - y2) * (x1 - x3));
        proof {
            lemma_fraction_signs(t as int, den as int);
            lemma_fraction_signs(u as int, den as int);
        }
        let inside = if den > 0 {
            0 < t && t < den
        } else {
            den < t && t < 0
        };
        let ahead = if den > 0 {
            0 < u
        } else {
            u < 0
        };
        if !(inside && ahead) {
            return None;
        }
        proof {
            lemma_product_bound(x1 as int, den as int, 0x8000_0000, 0x1_0000_0000_0000);
            lemma_product_bound(y1 as int, den as int, 0x8000_0000, 0x1_0000_0000_0000);
            lemma_product_bound(t as int, x2 - x1, 0x1_0000_0000_0000, 0xffff_ffff);
            lemma_product_bound(t as int, y2 - y1, 0x1_0000_0000_0000, 0xffff_ffff);
        }
        let x = x1 * den + t * (x2 - x1);
        let y = y1 * den + t * (y2 - y1);
        if den > 0 {
            Some(Hit { x, y, reach: u, scale: den })
        } else {
            Some(Hit { x: -x, y: -y, reach: -u, scale: -den })
        }
    }
}

impl Ray {
    /// The three numbers of Cramer's rule as cross products of the
    /// direction `d`, the wall vector `e = a - b` and the vector
    /// `f = a - origin`: `den = d × e`, `t = d × f` and `u = f × e`.
    pub proof fn lemma_cross_products(self, wall: Segment)
        ensures
            self.den(wall) == self.dir.dx * (wall.a.y - wall.b.y) - self.dir.dy * (wall.a.x
                - wall.b.x),
            self.t_num(wall) == self.dir.dx * (wall.a.y - self.origin.y) - self.dir.dy * (wall.a.x
                - self.origin.x),
            self.u_num(wall) == (wall.a.x - self.origin.x) * (wall.a.y - wall.b.y) - (wall.a.y
                - self.origin.y) * (wall.a.x - wall.b.x),
    {
        let (dx, dy) = (self.dir.dx as int, self.dir.dy as int);
        let (ex, ey) = (wall.a.x - wall.b.x, wall.a.y - wall.b.y);
        let (fx, fy) = (wall.a.x - self.origin.x, wall.a.y - self.origin.y);
        assert(ex * (-dy) - ey * (-dx) == dx * ey - dy * ex) by (nonlinear_arith);
        assert(fx * (-dy) - fy * (-dx) == dx * fy - dy * fx) by (nonlinear_arith);
        assert(-(ex * fy - ey * fx) == fx * ey - fy * ex) by (nonlinear_arith);
    }

    /// The fields of a crossing are the numbers themselves: none of them
    /// is too large for its type.
    pub proof fn lemma_crossing_fits(self, wall: Segment)
        ensures
            -0x1_0000_0000_0000 <= self.den(wall) <= 0x1_0000_0000_0000,
            -0x1_0000_0000_0000 <= self.t_num(wall) <= 0x1_0000_0000_0000,
            -0x2_0000_0000_0000_0000 <= self.u_num(wall) <= 0x2_0000_0000_0000_0000,
            self.den(wall) > 0 ==> {
                &&& self.crossing(wall).scale == self.den(wall)
                &&& self.crossing(wall).reach == self.u_num(wall)
                &&& self.crossing(wall).x == wall.a.x * self.den(wall) + self.t_num(wall) * (
                wall.b.x - wall.a.x)
                &&& self.crossing(wall).y == wall.a.y * self.den(wall) + self.t_num(wall) * (
                wall.b.y - wall.a.y)
            },
            self.den(wall) < 0 ==> {
                &&& self.crossing(wall).scale == -self.den(wall)
                &&& self.crossing(wall).reach == -self.u_num(wall)
                &&& self.crossing(wall).x == -(wall.a.x * self.den(wall) + self.t_num(wall) * (
                wall.b.x - wall.a.x))
                &&& self.crossing(wall).y == -(wall.a.y * self.den(wall) + self.t_num(wall) * (
                wall.b.y - wall.a.y))
            },
    {
        let (x1, y1, x2, y2) = (wall.a.x as int, wall.a.y as int, wall.b.x as int, wall.b.y as int);
        let (x3, y3) = (self.origin.x as int, self.origin.y as int);
        let (x4, y4) = (x3 + self.dir.dx, y3 + self.dir.dy);
        lemma_product_bound(x1 - x2, y3 - y4, 0xffff_ffff, 0x8000);
        lemma_product_bound(y1 - y2, x3 - x4, 0xffff_ffff, 0x8000);
        lemma_product_bound(x1 - x3, y3 - y4, 0xffff_ffff, 0x8000);
        lemma_product_bound(y1 - y3, x3 - x4, 0xffff_ffff, 0x8000);
        lemma_product_bound(x1 - x2, y1 - y3, 0xffff_ffff, 0xffff_ffff);
        lemma_product_bound(y1 - y2, x1 - x3, 0xffff_ffff, 0xffff_ffff);
        lemma_product_bound(x1, self.den(wall), 0x8000_0000, 0x1_0000_0000_0000);
        lemma_product_bound(y1, self.den(wall), 0x8000_0000, 0x1_0000_0000_0000);
        lemma_product_bound(self.t_num(wall), x2 - x1, 0x1_0000_0000_0000, 0xffff_ffff);
        lemma_product_bound(self.t_num(wall), y2 - y1, 0x1_0000_0000_0000, 0xffff_ffff);
    }
}

} // verus!
