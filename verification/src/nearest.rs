//! The nearest of the crossings of one ray with many walls.
//!
//! "Nearest" is meant by Euclidean distance from the ray's origin. Squared
//! distances of crossings are fractions too, and they are compared exactly,
//! by cross-multiplying. Where two crossings are equally far, the one whose
//! wall comes first in the list stays.

use vstd::prelude::*;
use crate::geometry::{Point, Segment};
use crate::arith::{lemma_fractions_chain, lemma_product_bound};
use crate::ray::{Hit, Ray};

verus! {

impl Hit {
    /// The squared distance from `from` to this point, times `scale` squared.
    pub open spec fn dist2(self, from: Point) -> int {
        (self.x - from.x * self.scale) * (self.x - from.x * self.scale) + (self.y - from.y
            * self.scale) * (self.y - from.y * self.scale)
    }

    /// This point is strictly closer to `from` than `other` is, by
    /// Euclidean distance.
    pub open spec fn closer_than(self, other: Hit, from: Point) -> bool {
        self.dist2(from) * (other.scale * other.scale) < other.dist2(from) * (self.scale
            * self.scale)
    }

    /// This point comes strictly before `other` along a ray that both lie
    /// on: its `reach / scale` is the smaller one.
    pub open spec fn sooner_than(self, other: Hit) -> bool {
        self.reach * other.scale < other.reach * self.scale
    }
}

/// A point of a ray's line, `reach / scale` direction vectors from the
/// origin, is that many lengths of the direction vector away from it.
pub proof fn lemma_distance_along_ray(ray: Ray, a: Hit)
    requires
        a.on_line(ray),
    ensures
        a.dist2(ray.origin) == (a.reach * a.reach) * ray.dir.norm2(),
{
    let (dx, dy) = (ray.dir.dx as int, ray.dir.dy as int);
    assert((a.reach * dx) * (a.reach * dx) + (a.reach * dy) * (a.reach * dy) == (a.reach
        * a.reach) * (dx * dx + dy * dy)) by (nonlinear_arith);
}

/// Of two points ahead of the origin on one ray, the closer one is the
/// one that comes sooner along the ray.
pub proof fn lemma_closer_is_sooner(ray: Ray, a: Hit, b: Hit)
    requires
        a.on_line(ray),
        b.on_line(ray),
        a.reach > 0,
        b.reach > 0,
        ray.dir.norm2() > 0,
    ensures
        a.closer_than(b, ray.origin) <==> a.sooner_than(b),
{
    let n = ray.dir.norm2();
    let p = a.reach * b.scale;
    let q = b.reach * a.scale;
    lemma_distance_along_ray(ray, a);
    lemma_distance_along_ray(ray, b);
    assert(((a.reach * a.reach) * n) * (b.scale * b.scale) == n * (p * p)) by (nonlinear_arith)
        requires
            p == a.reach * b.scale,
    ;
    assert(((b.reach * b.reach) * n) * (a.scale * a.scale) == n * (q * q)) by (nonlinear_arith)
        requires
            q == b.reach * a.scale,
    ;
    assert(p > 0 && q > 0) by (nonlinear_arith)
        requires
            p == a.reach * b.scale,
            q == b.reach * a.scale,
            a.reach > 0,
            b.reach > 0,
            a.scale > 0,
            b.scale > 0,
    ;
    assert(n * (p * p) < n * (q * q) <==> p < q) by (nonlinear_arith)
        requires
            n > 0,
            p > 0,
            q > 0,
    ;
}

impl Ray {
    /// The nearest crossing among `walls`, taken in order: a later
    /// crossing replaces the one kept so far only if it is strictly
    /// closer to the ray's origin.
    pub open spec fn nearest_spec(self, walls: Seq<Segment>) -> Option<Hit>
        decreases walls.len(),
    {
        if walls.len() == 0 {
            None
        } else {
            let kept = self.nearest_spec(walls.drop_last());
            match (self.cast_spec(walls.last()), kept) {
                (Some(h), Some(k)) => if h.closer_than(k, self.origin) {
                    Some(h)
                } else {
                    Some(k)
                },
                (Some(h), None) => Some(h),
                (None, _) => kept,
            }
        }
    }

    /// Wall `i` is the first of the walls that the ray meets at the least
    /// distance: every earlier crossing is strictly farther, and no later
    /// one is closer.
    pub open spec fn is_nearest(self, walls: Seq<Segment>, i: int) -> bool {
        &&& 0 <= i < walls.len()
        &&& self.meets(walls[i])
        &&& forall|j: int|
            0 <= j < i && self.meets(#[trigger] walls[j]) ==> self.crossing(walls[i]).closer_than(
                self.crossing(walls[j]),
                self.origin,
            )
        &&& forall|j: int|
            i < j < walls.len() && self.meets(#[trigger] walls[j]) ==> !self.crossing(
                walls[j],
            ).closer_than(self.crossing(walls[i]), self.origin)
    }
}

/// Being closer carries over: if `g` is closer than `k`, and `c` is not
/// closer than `k`, then `g` is closer than `c`.
pub proof fn lemma_closer_chain(g: Hit, k: Hit, c: Hit, from: Point)
    requires
        g.scale > 0,
        k.scale > 0,
        c.scale > 0,
        g.closer_than(k, from),
        !c.closer_than(k, from),
    ensures
        g.closer_than(c, from),
{
    assert(g.scale * g.scale > 0 && k.scale * k.scale > 0 && c.scale * c.scale > 0)
        by (nonlinear_arith)
        requires
            g.scale > 0,
            k.scale > 0,
            c.scale > 0,
    ;
    lemma_fractions_chain(
        g.dist2(from),
        g.scale * g.scale,
        k.dist2(from),
        k.scale * k.scale,
        c.dist2(from),
        c.scale * c.scale,
    );
}

impl Ray {
    /// What the scan over the walls finds: nothing exactly when the ray
    /// meets no wall, and otherwise the crossing with the first wall among
    /// those met at the least distance from the ray's origin.
    pub proof fn lemma_nearest_is_closest(self, walls: Seq<Segment>)
        ensures
            match self.nearest_spec(walls) {
                None => forall|j: int| 0 <= j < walls.len() ==> !self.meets(#[trigger] walls[j]),
                Some(h) => exists|i: int| #[trigger]
                    self.is_nearest(walls, i) && h == self.crossing(walls[i]),
            },
        decreases walls.len(),
    {
        if walls.len() > 0 {
            let before = walls.drop_last();
            let last = walls.len() - 1;
            self.lemma_nearest_is_closest(before);
            assert forall|j: int| 0 <= j < last implies before[j] == walls[j] by {}
            match (self.cast_spec(walls.last()), self.nearest_spec(before)) {
                (Some(h), Some(k)) => {
                    let i = choose|i: int| #[trigger]
                        self.is_nearest(before, i) && k == self.crossing(before[i]);
                    self.lemma_crossing_fits(walls[i]);
                    self.lemma_crossing_fits(walls[last]);
                    if h.closer_than(k, self.origin) {
                        assert forall|j: int|
                            0 <= j < last && self.meets(
                                #[trigger] walls[j],
                            ) implies h.closer_than(self.crossing(walls[j]), self.origin) by {
                            assert(before[j] == walls[j]);
                            self.lemma_crossing_fits(walls[j]);
                            lemma_closer_chain(h, k, self.crossing(walls[j]), self.origin);
                        }
                        assert(self.is_nearest(walls, last));
                    } else {
                        assert(self.is_nearest(walls, i));
                    }
                },
                (Some(h), None) => {
                    assert(self.is_nearest(walls, last));
                },
                (None, Some(k)) => {
                    let i = choose|i: int| #[trigger]
                        self.is_nearest(before, i) && k == self.crossing(before[i]);
                    assert(self.is_nearest(walls, i));
                },
                (None, None) => {},
            }
        }
    }

    /// At most one wall is the first among the nearest.
    pub proof fn lemma_nearest_is_unique(self, walls: Seq<Segment>, i: int, j: int)
        requires
            self.is_nearest(walls, i),
            self.is_nearest(walls, j),
        ensures
            i == j,
    {
    }

    /// Of two walls that the ray meets, the scan finds the crossing that
    /// is closer to the ray's origin, and the first where both are
    /// equally far.
    pub proof fn lemma_nearer_of_two(self, first: Segment, second: Segment)
        requires
            self.meets(first),
            self.meets(second),
        ensures
            self.nearest_spec(seq![first, second]) == Some(
                if self.crossing(second).closer_than(self.crossing(first), self.origin) {
                    self.crossing(second)
                } else {
                    self.crossing(first)
                },
            ),
    {
        let both = seq![first, second];
        assert(both.drop_last() =~= seq![first]);
        assert(seq![first].drop_last() =~= Seq::<Segment>::empty());
        assert(self.nearest_spec(Seq::<Segment>::empty()) is None);
        assert(self.nearest_spec(seq![first]) == Some(self.crossing(first)));
    }

    /// Nothing that the ray meets is closer to its origin than what the
    /// scan finds.
    pub proof fn lemma_nothing_closer(self, walls: Seq<Segment>, j: int)
        requires
            0 <= j < walls.len(),
            self.meets(walls[j]),
        ensures
            self.nearest_spec(walls) is Some,
            !self.crossing(walls[j]).closer_than(self.nearest_spec(walls).unwrap(), self.origin),
    {
        self.lemma_nearest_is_closest(walls);
        let found = self.nearest_spec(walls).unwrap();
        let i = choose|i: int| #[trigger]
            self.is_nearest(walls, i) && found == self.crossing(walls[i]);
        assert(self.meets(walls[j]));
    }

    /// Scans `walls` for the crossing nearest to the ray's origin.
    ///
    /// Returns nothing where the ray meets no wall. Where two crossings
    /// are equally far, the one whose wall comes first is returned.
    pub fn nearest(&self, walls: &[Segment]) -> (best: Option<Hit>)
        ensures
            best == self.nearest_spec(walls@),
            best is None <==> forall|j: int|
                0 <= j < walls@.len() ==> !self.meets(#[trigger] walls@[j]),
            best matches Some(h) ==> exists|i: int| #[trigger]
                self.is_nearest(walls@, i) && h == self.crossing(walls@[i]),
    {
        let mut best: Option<Hit> = None;
        let mut i: usize = 0;
        while i < walls.len()
            invariant
                i <= walls.len(),
                best == self.nearest_spec(walls@.take(i as int)),
            decreases walls.len() - i,
        {
            let hit = self.cast(&walls[i]);
            proof {
                let seen = walls@.take(i as int);
                assert(walls@.take(i + 1).drop_last() == seen);
                assert(walls@.take(i + 1).last() == walls@[i as int]);
                self.lemma_nearest_is_closest(seen);
            }
            if let Some(h) = hit {
                match best {
                    Some(k) => {
                        proof {
                            let seen = walls@.take(i as int);
                            let w = choose|w: int| #[trigger]
                                self.is_nearest(seen, w) && k == self.crossing(seen[w]);
                            self.lemma_hit_ahead(seen[w]);
                            self.lemma_hit_ahead(walls@[i as int]);
                            lemma_closer_is_sooner(*self, h, k);
                            lemma_product_bound(
                                h.reach as int,
                                k.scale as int,
                                0x2_0000_0000_0000_0000,
                                0x1_0000_0000_0000,
                            );
                            lemma_product_bound(
                                k.reach as int,
                                h.scale as int,
                                0x2_0000_0000_0000_0000,
                                0x1_0000_0000_0000,
                            );
                        }
                        if h.reach * k.scale < k.reach * h.scale {
                            best = Some(h);
                        }
                    },
                    None => {
                        best = Some(h);
                    },
                }
            }
            i += 1;
        }
        proof {
            assert(walls@.take(i as int) == walls@);
            self.lemma_nearest_is_closest(walls@);
        }
        best
    }
}

} // verus!
