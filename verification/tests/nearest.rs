use raycasting::geometry::{Direction, Point, Segment};
use raycasting::ray::{Hit, Ray};

fn eastward() -> Ray {
    Ray { origin: Point::new(0, 0), dir: Direction::new(1, 0) }
}

fn upright(x: i32) -> Segment {
    Segment::new(Point::new(x, -10), Point::new(x, 10))
}

/// Squared distance from `from` to the hit, as a fraction `(numerator, denominator)`.
fn dist2(hit: &Hit, from: Point) -> (i128, i128) {
    let dx = hit.x - from.x as i128 * hit.scale;
    let dy = hit.y - from.y as i128 * hit.scale;
    (dx * dx + dy * dy, hit.scale * hit.scale)
}

fn closer(a: &Hit, b: &Hit, from: Point) -> bool {
    let (na, da) = dist2(a, from);
    let (nb, db) = dist2(b, from);
    na * db < nb * da
}

#[test]
fn no_walls_nothing_seen() {
    assert_eq!(eastward().nearest(&[]), None);
}

#[test]
fn walls_that_are_all_missed() {
    let walls = [upright(-5), Segment::new(Point::new(1, 1), Point::new(9, 1))];
    assert_eq!(eastward().nearest(&walls), None);
}

#[test]
fn nearer_of_two_walls_is_found_first_in_list() {
    let walls = [upright(5), upright(20)];
    let best = eastward().nearest(&walls).unwrap();
    assert_eq!(best, Hit { x: 100, y: 0, reach: 100, scale: 20 });
    assert_eq!(best.x, 5 * best.scale);
}

#[test]
fn nearer_of_two_walls_is_found_last_in_list() {
    let walls = [upright(20), upright(5)];
    let best = eastward().nearest(&walls).unwrap();
    assert_eq!(best, Hit { x: 100, y: 0, reach: 100, scale: 20 });
}

#[test]
fn nearest_is_the_geometrically_closer_candidate() {
    let ray = Ray { origin: Point::new(-3, 2), dir: Direction::new(7, 4) };
    let near = Segment::new(Point::new(2, -10), Point::new(5, 30));
    let far = Segment::new(Point::new(40, -10), Point::new(20, 60));
    let a = ray.cast(&near).unwrap();
    let b = ray.cast(&far).unwrap();
    assert!(closer(&a, &b, ray.origin));
    assert!(!closer(&b, &a, ray.origin));
    assert_eq!(ray.nearest(&[near, far]), Some(a));
    assert_eq!(ray.nearest(&[far, near]), Some(a));
}

#[test]
fn nothing_met_is_closer_than_the_nearest() {
    let ray = Ray { origin: Point::new(1, 1), dir: Direction::new(5, 3) };
    let walls = [
        Segment::new(Point::new(30, -5), Point::new(30, 40)),
        Segment::new(Point::new(-4, -4), Point::new(-4, 4)),
        Segment::new(Point::new(8, 0), Point::new(8, 20)),
        Segment::new(Point::new(0, 9), Point::new(40, 9)),
        Segment::new(Point::new(11, 0), Point::new(11, 20)),
    ];
    let best = ray.nearest(&walls).unwrap();
    assert_eq!(Some(best), ray.cast(&walls[2]));
    let mut met = 0;
    for wall in walls.iter() {
        if let Some(hit) = ray.cast(wall) {
            met += 1;
            assert!(!closer(&hit, &best, ray.origin));
        }
    }
    assert_eq!(met, 4);
}

#[test]
fn equally_far_crossings_keep_the_first() {
    // Two walls through the same point of the ray, met under different
    // angles: the fractions differ, the point does not.
    let steep = Segment::new(Point::new(6, -6), Point::new(6, 6));
    let slanted = Segment::new(Point::new(0, -3), Point::new(12, 3));
    let a = eastward().cast(&steep).unwrap();
    let b = eastward().cast(&slanted).unwrap();
    assert_ne!(a, b);
    assert!(!closer(&a, &b, Point::new(0, 0)) && !closer(&b, &a, Point::new(0, 0)));
    assert_eq!(eastward().nearest(&[steep, slanted]), Some(a));
    assert_eq!(eastward().nearest(&[slanted, steep]), Some(b));
}

#[test]
fn missed_walls_between_hits_are_passed_over() {
    let walls = [upright(-1), upright(9), upright(-2), upright(4), upright(-3)];
    let best = eastward().nearest(&walls).unwrap();
    assert_eq!(best.x, 4 * best.scale);
    assert_eq!(best.y, 0);
}

#[test]
fn very_far_wall_is_the_nearest_if_alone() {
    let ray = Ray { origin: Point::new(i32::MIN, 0), dir: Direction::new(1, 0) };
    let far = Segment::new(Point::new(i32::MAX, -1), Point::new(i32::MAX, 1));
    let best = ray.nearest(&[far]).unwrap();
    assert_eq!(best.x, i32::MAX as i128 * best.scale);
    assert_eq!(best.reach, (u32::MAX as i128) * best.scale);
}

#[test]
fn largest_crossings_are_compared_without_overflow() {
    let ray = Ray { origin: Point::new(i32::MIN, i32::MIN), dir: Direction::new(i16::MAX, i16::MAX) };
    let far = Segment::new(Point::new(i32::MIN, i32::MAX), Point::new(i32::MAX, i32::MIN));
    let farther = Segment::new(Point::new(i32::MAX, i32::MIN), Point::new(i32::MAX, i32::MAX));
    let a = ray.cast(&far).unwrap();
    assert!(ray.cast(&farther).is_none());
    let side = Segment::new(Point::new(i32::MAX - 1, i32::MIN), Point::new(i32::MAX - 1, i32::MAX));
    let b = ray.cast(&side).unwrap();
    assert_eq!(ray.nearest(&[side, far]), Some(a));
    assert_eq!(ray.nearest(&[far, side]), Some(a));
    assert!(a.reach * b.scale < b.reach * a.scale);
}

#[test]
fn distance_is_reach_times_length_of_direction() {
    let ray = Ray { origin: Point::new(-3, 2), dir: Direction::new(7, 4) };
    let wall = Segment::new(Point::new(2, -10), Point::new(5, 30));
    let hit = ray.cast(&wall).unwrap();
    let (num, den) = dist2(&hit, ray.origin);
    assert_eq!(den, hit.scale * hit.scale);
    assert_eq!(num, hit.reach * hit.reach * (7 * 7 + 4 * 4));
}
