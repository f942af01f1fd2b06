//! The emitter: a point that carries one ray for every whole degree.

use vstd::prelude::*;
use crate::geometry::{Point, Segment};
use crate::heading::{
    heading,
    lemma_heading_step,
    lemma_headings_distinct,
    FULL_TURN,
    UNIT,
};
use crate::ray::{Hit, Ray};

verus! {

/// A movable point with a fan of rays around it, one for each whole
/// degree of a full turn. Wherever the emitter goes, its rays go with it.
pub struct Emitter {
    pos: Point,
    rays: Vec<Ray>,
}

/// What an emitter is made of: where it stands, and its rays in order.
pub struct Fan {
    pub pos: Point,
    pub rays: Seq<Ray>,
}

impl Fan {
    /// There is one ray for each whole degree; ray `i` points along the
    /// heading of `i` degrees, and every ray starts where the emitter
    /// stands.
    pub open spec fn synchronized(self) -> bool {
        &&& self.rays.len() == FULL_TURN
        &&& forall|i: int|
            0 <= i < FULL_TURN ==> #[trigger] self.rays[i] == (Ray {
                origin: self.pos,
                dir: heading(i),
            })
    }

    /// What ray `r` of the fan sees of `walls`: the nearest crossing,
    /// paired with the emitter's place, or nothing.
    pub open spec fn sighting(self, r: Ray, walls: Seq<Segment>) -> Option<(Point, Hit)> {
        match r.nearest_spec(walls) {
            Some(h) => Some((self.pos, h)),
            None => None,
        }
    }

    /// The sightings of all rays, in the order of the rays. A ray that
    /// meets no wall contributes nothing.
    pub open spec fn sightings(self, walls: Seq<Segment>) -> Seq<(Point, Hit)> {
        self.rays.filter_map(|r: Ray| self.sighting(r, walls))
    }
}

impl View for Emitter {
    type V = Fan;

    closed spec fn view(&self) -> Fan {
        Fan { pos: self.pos, rays: self.rays@ }
    }
}

/// Moves every ray of `rays` to `(x, y)`, and `pos` with them.
fn place(pos: &mut Point, rays: &mut Vec<Ray>, x: i32, y: i32)
    ensures
        *final(pos) == (Point { x, y }),
        final(rays)@.len() == old(rays)@.len(),
        forall|i: int|
            0 <= i < old(rays)@.len() ==> #[trigger] final(rays)@[i] == (Ray {
                origin: Point { x, y },
                dir: old(rays)@[i].dir,
            }),
    no_unwind
{
    pos.x = x;
    pos.y = y;
    let mut i: usize = 0;
    while i < rays.len()
        invariant
            i <= rays@.len(),
            rays@.len() == old(rays)@.len(),
            forall|j: int|
                0 <= j < i ==> #[trigger] rays@[j] == (Ray {
                    origin: Point { x, y },
                    dir: old(rays)@[j].dir,
                }),
            forall|j: int| i <= j < rays@.len() ==> #[trigger] rays@[j] == old(rays)@[j],
        decreases rays@.len() - i,
    {
        rays[i].origin.x = x;
        rays[i].origin.y = y;
        i += 1;
    }
}

impl Emitter {
    #[verifier::type_invariant]
    spec fn inv(self) -> bool {
        self@.synchronized()
    }

    /// An emitter at the origin of the plane.
    pub fn new() -> (e: Emitter)
        ensures
            e@.pos == (Point { x: 0, y: 0 }),
            e@.synchronized(),
    {
        let mut rays: Vec<Ray> = Vec::new();
        let mut a: u16 = 0;
        while a < FULL_TURN
            invariant
                a <= FULL_TURN,
                rays@.len() == a,
                forall|i: int|
                    0 <= i < a ==> #[trigger] rays@[i] == (Ray {
                        origin: Point { x: 0, y: 0 },
                        dir: heading(i),
                    }),
            decreases FULL_TURN - a,
        {
            rays.push(Ray::new(Point::new(0, 0), a));
            a += 1;
        }
        Emitter { pos: Point::new(0, 0), rays }
    }

    /// Moves the emitter, and all its rays with it, to `(x, y)`.
    pub fn update(&mut self, x: i32, y: i32)
        ensures
            final(self)@.pos == (Point { x, y }),
            final(self)@.synchronized(),
            forall|i: int|
                0 <= i < FULL_TURN ==> (#[trigger] final(self)@.rays[i]).origin == (Point { x, y }),
    {
        proof {
            use_type_invariant(&*self);
        }
        place(&mut self.pos, &mut self.rays, x, y);
    }

    /// Where the emitter stands.
    pub fn pos(&self) -> (p: Point)
        ensures
            p == self@.pos,
            self@.synchronized(),
    {
        proof {
            use_type_invariant(self);
        }
        self.pos
    }

    /// The rays, in the order of their degrees.
    pub fn rays(&self) -> (rays: &[Ray])
        ensures
            rays@ == self@.rays,
            self@.synchronized(),
    {
        proof {
            use_type_invariant(self);
        }
        self.rays.as_slice()
    }

    /// Looks along every ray for the nearest wall.
    ///
    /// Returns, in the order of the rays, one pair for each ray that meets
    /// a wall: the emitter's place, and the nearest crossing of that ray
    /// with any of `walls`. A ray that meets no wall is passed over.
    pub fn look(&self, walls: &[Segment]) -> (seen: Vec<(Point, Hit)>)
        ensures
            seen@ == self@.sightings(walls@),
            self@.synchronized(),
    {
        proof {
            use_type_invariant(self);
        }
        let ghost watch = |r: Ray| self@.sighting(r, walls@);
        let mut seen: Vec<(Point, Hit)> = Vec::new();
        let mut i: usize = 0;
        while i < self.rays.len()
            invariant
                i <= self.rays@.len(),
                watch == (|r: Ray| self@.sighting(r, walls@)),
                seen@ == self.rays@.take(i as int).filter_map(watch),
            decreases self.rays@.len() - i,
        {
            let closest = self.rays[i].nearest(walls);
            proof {
                self.rays@.lemma_filter_map_take_succ(watch, i as int);
            }
            if let Some(hit) = closest {
                seen.push((self.pos, hit));
            }
            i += 1;
        }
        proof {
            assert(self.rays@.take(i as int) == self.rays@);
        }
        seen
    }
}

impl Fan {
    /// The rays of a synchronized fan go round once: no two of them point
    /// the same way, and each is a small turn to the left of the one
    /// before it, the first of the one that comes last.
    pub proof fn lemma_fan_goes_round(self, a: int, b: int)
        requires
            self.synchronized(),
            0 <= a < FULL_TURN,
            0 <= b < FULL_TURN,
        ensures
            a != b ==> self.rays[a].dir != self.rays[b].dir,
            b == (a + 1) % (FULL_TURN as int) ==> {
                &&& 57 * self.rays[a].dir.cross(self.rays[b].dir) < UNIT * UNIT
                &&& UNIT * UNIT < 58 * self.rays[a].dir.cross(self.rays[b].dir)
                &&& self.rays[a].dir.dot(self.rays[b].dir) > 0
            },
    {
        if a < b {
            lemma_headings_distinct(a, b);
        } else if b < a {
            lemma_headings_distinct(b, a);
        }
        lemma_heading_step(a);
    }

    /// What one ray of a synchronized fan sees is nearest to the emitter:
    /// nothing if the ray meets no wall, and otherwise the emitter's place
    /// paired with a crossing of that ray than which no other crossing of
    /// it is closer to the emitter.
    pub proof fn lemma_sighting_is_nearest(self, deg: int, walls: Seq<Segment>)
        requires
            self.synchronized(),
            0 <= deg < FULL_TURN,
        ensures
            match self.sighting(self.rays[deg], walls) {
                None => forall|j: int|
                    0 <= j < walls.len() ==> !self.rays[deg].meets(#[trigger] walls[j]),
                Some((from, hit)) => {
                    &&& from == self.pos
                    &&& exists|i: int|
                        0 <= i < walls.len() && self.rays[deg].meets(#[trigger] walls[i]) && hit
                            == self.rays[deg].crossing(walls[i])
                    &&& forall|j: int|
                        0 <= j < walls.len() && self.rays[deg].meets(#[trigger] walls[j])
                            ==> !self.rays[deg].crossing(walls[j]).closer_than(hit, self.pos)
                },
            },
    {
        let ray = self.rays[deg];
        ray.lemma_nearest_is_closest(walls);
        if let Some(hit) = ray.nearest_spec(walls) {
            let i = choose|i: int| #[trigger]
                ray.is_nearest(walls, i) && hit == ray.crossing(walls[i]);
            assert(ray.meets(walls[i]));
            assert forall|j: int|
                0 <= j < walls.len() && ray.meets(#[trigger] walls[j]) implies !ray.crossing(
                walls[j],
            ).closer_than(hit, self.pos) by {
                ray.lemma_nothing_closer(walls, j);
            }
        }
    }

    /// Every sighting is what some ray of the fan sees, and no ray is
    /// counted twice over: there are no more sightings than rays.
    pub proof fn lemma_sightings_come_from_rays(self, walls: Seq<Segment>, k: int)
        requires
            0 <= k < self.sightings(walls).len(),
        ensures
            self.sightings(walls).len() <= self.rays.len(),
            exists|deg: int|
                0 <= deg < self.rays.len() && self.sighting(#[trigger] self.rays[deg], walls)
                    == Some(self.sightings(walls)[k]),
    {
        let watch = |r: Ray| self.sighting(r, walls);
        let seen = self.sightings(walls)[k];
        lemma_filter_map_len(self.rays, watch);
        assert(self.sightings(walls).contains(seen));
        self.rays.lemma_filter_map_contains(watch, seen);
        let r = choose|r: Ray| #[trigger] self.rays.contains(r) && watch(r) == Some(seen);
        let deg = choose|deg: int| 0 <= deg < self.rays.len() && self.rays[deg] == r;
        assert(self.sighting(self.rays[deg], walls) == Some(seen));
    }

    /// Every ray that meets a wall has its sighting among the sightings.
    pub proof fn lemma_no_ray_forgotten(self, walls: Seq<Segment>, deg: int)
        requires
            0 <= deg < self.rays.len(),
            self.sighting(self.rays[deg], walls) is Some,
        ensures
            self.sightings(walls).contains(self.sighting(self.rays[deg], walls).unwrap()),
    {
        let watch = |r: Ray| self.sighting(r, walls);
        lemma_filter_map_keeps(self.rays, watch, deg);
    }
}

/// Keeping only what a function maps to something does not lengthen a
/// sequence.
proof fn lemma_filter_map_len<A, B>(s: Seq<A>, f: spec_fn(A) -> Option<B>)
    ensures
        s.filter_map(f).len() <= s.len(),
    decreases s.len(),
{
    if s.len() > 0 {
        lemma_filter_map_len(s.drop_last(), f);
    }
}

/// What a function maps an element to is among the results kept.
proof fn lemma_filter_map_keeps<A, B>(s: Seq<A>, f: spec_fn(A) -> Option<B>, i: int)
    requires
        0 <= i < s.len(),
        f(s[i]) is Some,
    ensures
        s.filter_map(f).contains(f(s[i]).unwrap()),
    decreases s.len(),
{
    let rest = s.drop_last().filter_map(f);
    if i == s.len() - 1 {
        let all = rest + seq![f(s[i]).unwrap()];
        assert(all[rest.len() as int] == f(s[i]).unwrap());
    } else {
        lemma_filter_map_keeps(s.drop_last(), f, i);
        let at = choose|at: int| 0 <= at < rest.len() && rest[at] == f(s[i]).unwrap();
        match f(s.last()) {
            Some(b) => {
                assert((rest + seq![b])[at] == f(s[i]).unwrap());
            },
            None => {},
        }
    }
}

} // verus!
