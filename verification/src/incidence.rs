//! What a crossing is, geometrically.
//!
//! The formulas of the ray module are justified here: the point they
//! give lies on the ray's line and on the wall's line, it is the only such
//! point, and the ray meets the wall exactly when that point lies strictly
//! inside the wall and strictly ahead of the ray's origin.

use vstd::prelude::*;
use crate::arith::{
    lemma_crossed,
    lemma_fraction_signs,
    lemma_same_fraction,
    lemma_three_vectors,
};
use crate::geometry::Segment;
use crate::ray::{Hit, Ray};

verus! {

impl Hit {
    /// This point lies on the line of `ray`, `reach / scale` direction
    /// vectors from the ray's origin, and `scale` is positive.
    pub open spec fn on_line(self, ray: Ray) -> bool {
        &&& self.scale > 0
        &&& self.x - ray.origin.x * self.scale == self.reach * ray.dir.dx
        &&& self.y - ray.origin.y * self.scale == self.reach * ray.dir.dy
    }

    /// This point lies on the line of `wall`, `share / scale` of the way
    /// from the wall's first endpoint to its second, and `scale` is
    /// positive.
    pub open spec fn on_wall_line(self, wall: Segment, share: int) -> bool {
        &&& self.scale > 0
        &&& self.x == wall.a.x * self.scale + share * (wall.b.x - wall.a.x)
        &&& self.y == wall.a.y * self.scale + share * (wall.b.y - wall.a.y)
    }
}

impl Ray {
    /// The numerator of `t` over the positive denominator of a crossing.
    pub open spec fn share(self, wall: Segment) -> int {
        if self.den(wall) < 0 {
            -self.t_num(wall)
        } else {
            self.t_num(wall)
        }
    }

    /// The crossing of two lines that are not parallel lies on the ray's
    /// line: it is the origin plus `reach / scale` direction vectors.
    pub proof fn lemma_crossing_on_ray(self, wall: Segment)
        requires
            self.den(wall) != 0,
        ensures
            self.crossing(wall).on_line(self),
    {
        let (dx, dy) = (self.dir.dx as int, self.dir.dy as int);
        let (ex, ey) = (wall.a.x - wall.b.x, wall.a.y - wall.b.y);
        let (fx, fy) = (wall.a.x - self.origin.x, wall.a.y - self.origin.y);
        let den = self.den(wall);
        let t = self.t_num(wall);
        let u = self.u_num(wall);
        self.lemma_cross_products(wall);
        self.lemma_crossing_fits(wall);
        lemma_three_vectors(dx, dy, ex, ey, fx, fy);
        assert(den * fx - t * ex == u * dx);
        assert(den * fy - t * ey == u * dy);
        assert(wall.a.x * den + t * (wall.b.x - wall.a.x) - self.origin.x * den == den * fx - t
            * ex) by (nonlinear_arith)
            requires
                ex == wall.a.x - wall.b.x,
                fx == wall.a.x - self.origin.x,
        ;
        assert(wall.a.y * den + t * (wall.b.y - wall.a.y) - self.origin.y * den == den * fy - t
            * ey) by (nonlinear_arith)
            requires
                ey == wall.a.y - wall.b.y,
                fy == wall.a.y - self.origin.y,
        ;
        if den < 0 {
            assert(self.origin.x * (-den) == -(self.origin.x * den)) by (nonlinear_arith);
            assert(self.origin.y * (-den) == -(self.origin.y * den)) by (nonlinear_arith);
            assert((-u) * dx == -(u * dx)) by (nonlinear_arith);
            assert((-u) * dy == -(u * dy)) by (nonlinear_arith);
        }
    }

    /// Where the ray meets the wall, the crossing lies on the ray's line,
    /// strictly ahead of the origin, and the ray has a direction.
    pub proof fn lemma_hit_ahead(self, wall: Segment)
        requires
            self.meets(wall),
        ensures
            self.crossing(wall).on_line(self),
            0 < self.crossing(wall).reach <= 0x2_0000_0000_0000_0000,
            0 < self.crossing(wall).scale <= 0x1_0000_0000_0000,
            self.dir.norm2() > 0,
    {
        self.lemma_crossing_on_ray(wall);
        self.lemma_crossing_fits(wall);
        self.lemma_cross_products(wall);
        lemma_fraction_signs(self.u_num(wall), self.den(wall));
        let (dx, dy) = (self.dir.dx as int, self.dir.dy as int);
        let (ex, ey) = (wall.a.x - wall.b.x, wall.a.y - wall.b.y);
        assert(dx * dx + dy * dy > 0) by (nonlinear_arith)
            requires
                dx * ey - dy * ex != 0,
        ;
    }

    /// A ray parallel to a wall meets nothing, whether or not it runs
    /// along the wall.
    pub proof fn lemma_parallel_meets_nothing(self, wall: Segment)
        requires
            (wall.b.x - wall.a.x) * self.dir.dy == (wall.b.y - wall.a.y) * self.dir.dx,
        ensures
            self.den(wall) == 0,
            self.cast_spec(wall) is None,
    {
        self.lemma_cross_products(wall);
        let (dx, dy) = (self.dir.dx as int, self.dir.dy as int);
        let (ex, ey) = (wall.a.x - wall.b.x, wall.a.y - wall.b.y);
        assert(dx * ey - dy * ex == 0) by (nonlinear_arith)
            requires
                (-ex) * dy == (-ey) * dx,
        ;
    }

    /// A ray whose line passes through an endpoint of the wall does not
    /// meet the wall: the endpoints are no part of it.
    pub proof fn lemma_endpoints_excluded(self, wall: Segment)
        requires
            (wall.a.x - self.origin.x) * self.dir.dy == (wall.a.y - self.origin.y) * self.dir.dx
                || (wall.b.x - self.origin.x) * self.dir.dy == (wall.b.y - self.origin.y)
                * self.dir.dx,
        ensures
            self.cast_spec(wall) is None,
    {
        self.lemma_cross_products(wall);
        let (dx, dy) = (self.dir.dx as int, self.dir.dy as int);
        let (ex, ey) = (wall.a.x - wall.b.x, wall.a.y - wall.b.y);
        let (fx, fy) = (wall.a.x - self.origin.x, wall.a.y - self.origin.y);
        let den = self.den(wall);
        let t = self.t_num(wall);
        if fx * dy == fy * dx {
            assert(t == 0) by (nonlinear_arith)
                requires
                    t == dx * fy - dy * fx,
                    fx * dy == fy * dx,
            ;
            assert(t * den == 0) by (nonlinear_arith)
                requires
                    t == 0,
            ;
        } else {
            assert(t == den) by (nonlinear_arith)
                requires
                    t == dx * fy - dy * fx,
                    den == dx * ey - dy * ex,
                    (fx - ex) * dy == (fy - ey) * dx,
            ;
        }
    }

    /// Where the ray meets the wall, the crossing is a point of both: it
    /// lies on the wall strictly between the endpoints, and on the ray
    /// strictly ahead of the origin.
    pub proof fn lemma_hit_on_both(self, wall: Segment)
        requires
            self.meets(wall),
        ensures
            self.crossing(wall).on_wall_line(wall, self.share(wall)),
            0 < self.share(wall) < self.crossing(wall).scale,
            self.crossing(wall).on_line(self),
            0 < self.crossing(wall).reach,
    {
        self.lemma_hit_ahead(wall);
        self.lemma_crossing_fits(wall);
        lemma_fraction_signs(self.t_num(wall), self.den(wall));
        let den = self.den(wall);
        let t = self.t_num(wall);
        if den < 0 {
            assert(wall.a.x * (-den) + (-t) * (wall.b.x - wall.a.x) == -(wall.a.x * den + t * (
            wall.b.x - wall.a.x))) by (nonlinear_arith);
            assert(wall.a.y * (-den) + (-t) * (wall.b.y - wall.a.y) == -(wall.a.y * den + t * (
            wall.b.y - wall.a.y))) by (nonlinear_arith);
        }
    }

    /// Two lines that are not parallel have one point in common, and
    /// Cramer's rule finds it: any point `p` on both lines sits at
    /// `t = share / p.scale` along the wall and `u = p.reach / p.scale`
    /// along the ray. So the ray meets the wall exactly when that point
    /// lies strictly inside the wall and strictly ahead of the origin.
    pub proof fn lemma_common_point(self, wall: Segment, p: Hit, share: int)
        requires
            self.den(wall) != 0,
            p.on_wall_line(wall, share),
            p.on_line(self),
        ensures
            share * self.den(wall) == self.t_num(wall) * p.scale,
            p.reach * self.den(wall) == self.u_num(wall) * p.scale,
            self.meets(wall) <==> 0 < share < p.scale && 0 < p.reach,
            p.x * self.crossing(wall).scale == self.crossing(wall).x * p.scale,
            p.y * self.crossing(wall).scale == self.crossing(wall).y * p.scale,
    {
        self.lemma_cross_products(wall);
        self.lemma_crossing_fits(wall);
        let (dx, dy) = (self.dir.dx as int, self.dir.dy as int);
        let (ex, ey) = (wall.a.x - wall.b.x, wall.a.y - wall.b.y);
        let (fx, fy) = (wall.a.x - self.origin.x, wall.a.y - self.origin.y);
        let den = self.den(wall);
        let t = self.t_num(wall);
        let u = self.u_num(wall);
        let s = p.scale as int;
        let r = p.reach as int;
        // The point written both ways: s f - share e = r d.
        assert(s * fx - share * ex == r * dx) by (nonlinear_arith)
            requires
                p.x == wall.a.x * s + share * (wall.b.x - wall.a.x),
                p.x - self.origin.x * s == r * dx,
                ex == wall.a.x - wall.b.x,
                fx == wall.a.x - self.origin.x,
        ;
        assert(s * fy - share * ey == r * dy) by (nonlinear_arith)
            requires
                p.y == wall.a.y * s + share * (wall.b.y - wall.a.y),
                p.y - self.origin.y * s == r * dy,
                ey == wall.a.y - wall.b.y,
                fy == wall.a.y - self.origin.y,
        ;
        let (ax, ay) = (s * fx - share * ex, s * fy - share * ey);
        lemma_crossed(s, share, dx, dy, ex, ey, fx, fy);
        // Crossed with d, the right side vanishes.
        assert(dx * (r * dy) - dy * (r * dx) == 0) by (nonlinear_arith);
        assert(share * den == t * s) by (nonlinear_arith)
            requires
                dx * ay - dy * ax == s * (dx * fy - dy * fx) - share * (dx * ey - dy * ex),
                dx * ay - dy * ax == 0,
                den == dx * ey - dy * ex,
                t == dx * fy - dy * fx,
        ;
        // Crossed with e, the share vanishes.
        assert((r * dx) * ey - (r * dy) * ex == r * (dx * ey - dy * ex)) by (nonlinear_arith);
        assert(r * den == u * s) by (nonlinear_arith)
            requires
                ax * ey - ay * ex == s * (fx * ey - fy * ex),
                ax * ey - ay * ex == r * (dx * ey - dy * ex),
                den == dx * ey - dy * ex,
                u == fx * ey - fy * ex,
        ;
        lemma_fraction_signs(t, den);
        lemma_fraction_signs(u, den);
        lemma_same_fraction(share, s, t, den);
        lemma_same_fraction(r, s, u, den);
        let c = self.crossing(wall);
        assert(c.x - wall.a.x * c.scale == self.share(wall) * (wall.b.x - wall.a.x)
            && c.y - wall.a.y * c.scale == self.share(wall) * (wall.b.y - wall.a.y)) by {
            if den < 0 {
                assert(wall.a.x * (-den) + (-t) * (wall.b.x - wall.a.x) == -(wall.a.x * den + t
                    * (wall.b.x - wall.a.x))) by (nonlinear_arith);
                assert(wall.a.y * (-den) + (-t) * (wall.b.y - wall.a.y) == -(wall.a.y * den + t
                    * (wall.b.y - wall.a.y))) by (nonlinear_arith);
            }
        }
        let cs = c.scale as int;
        let ct = self.share(wall);
        assert(share * cs == ct * s) by (nonlinear_arith)
            requires
                share * den == t * s,
                (cs == den && ct == t) || (cs == -den && ct == -t),
        ;
        assert(p.x * cs == c.x * s) by (nonlinear_arith)
            requires
                p.x == wall.a.x * s + share * (wall.b.x - wall.a.x),
                c.x == wall.a.x * cs + ct * (wall.b.x - wall.a.x),
                share * cs == ct * s,
        ;
        assert(p.y * cs == c.y * s) by (nonlinear_arith)
            requires
                p.y == wall.a.y * s + share * (wall.b.y - wall.a.y),
                c.y == wall.a.y * cs + ct * (wall.b.y - wall.a.y),
                share * cs == ct * s,
        ;
    }

    /// Only the way a direction points matters, not its length: a ray
    /// with a direction vector `k` times as long meets the same walls at
    /// the same points, after one `k`th of the direction vectors.
    pub proof fn lemma_length_of_direction_is_free(self, longer: Ray, k: int, wall: Segment)
        requires
            k > 0,
            longer.origin == self.origin,
            longer.dir.dx == k * self.dir.dx,
            longer.dir.dy == k * self.dir.dy,
        ensures
            longer.meets(wall) == self.meets(wall),
            self.den(wall) != 0 ==> {
                &&& longer.crossing(wall).x == k * self.crossing(wall).x
                &&& longer.crossing(wall).y == k * self.crossing(wall).y
                &&& longer.crossing(wall).scale == k * self.crossing(wall).scale
                &&& longer.crossing(wall).reach == self.crossing(wall).reach
            },
    {
        self.lemma_cross_products(wall);
        longer.lemma_cross_products(wall);
        self.lemma_crossing_fits(wall);
        longer.lemma_crossing_fits(wall);
        let (dx, dy) = (self.dir.dx as int, self.dir.dy as int);
        let (ex, ey) = (wall.a.x - wall.b.x, wall.a.y - wall.b.y);
        let (fx, fy) = (wall.a.x - self.origin.x, wall.a.y - self.origin.y);
        let (den, t, u) = (self.den(wall), self.t_num(wall), self.u_num(wall));
        let (den_k, t_k) = (longer.den(wall), longer.t_num(wall));
        assert(den_k == k * den) by (nonlinear_arith)
            requires
                den_k == (k * dx) * ey - (k * dy) * ex,
                den == dx * ey - dy * ex,
        ;
        assert(t_k == k * t) by (nonlinear_arith)
            requires
                t_k == (k * dx) * fy - (k * dy) * fx,
                t == dx * fy - dy * fx,
        ;
        assert(den < 0 <==> k * den < 0) by (nonlinear_arith)
            requires
                k > 0,
        ;
        assert(den == 0 <==> k * den == 0) by (nonlinear_arith)
            requires
                k > 0,
        ;
        if den != 0 {
            lemma_fraction_signs(t, den);
            lemma_fraction_signs(u, den);
            lemma_fraction_signs(t_k, den_k);
            lemma_fraction_signs(u, den_k);
            assert((t > 0 <==> k * t > 0) && (t < 0 <==> k * t < 0) && (t < den <==> k * t < k
                * den) && (t > den <==> k * t > k * den)) by (nonlinear_arith)
                requires
                    k > 0,
            ;
            assert(wall.a.x * (k * den) + (k * t) * (wall.b.x - wall.a.x) == k * (wall.a.x * den
                + t * (wall.b.x - wall.a.x))) by (nonlinear_arith);
            assert(wall.a.y * (k * den) + (k * t) * (wall.b.y - wall.a.y) == k * (wall.a.y * den
                + t * (wall.b.y - wall.a.y))) by (nonlinear_arith);
            assert(k * (-den) == -(k * den)) by (nonlinear_arith);
            let x = wall.a.x * den + t * (wall.b.x - wall.a.x);
            let y = wall.a.y * den + t * (wall.b.y - wall.a.y);
            assert(k * (-x) == -(k * x) && k * (-y) == -(k * y)) by (nonlinear_arith);
        }
    }
}

} // verus!
