use raycasting::geometry::{Direction, Point, Segment};
use raycasting::ray::{Hit, Ray};

fn upright_wall() -> Segment {
    Segment::new(Point::new(0, 0), Point::new(0, 10))
}

fn ray(x: i32, y: i32, dx: i16, dy: i16) -> Ray {
    Ray { origin: Point::new(x, y), dir: Direction::new(dx, dy) }
}

/// The point of a hit as a pair of fractions in lowest terms would be
/// awkward to compare; this checks it against a lattice point instead.
fn is_at(hit: &Hit, x: i128, y: i128) -> bool {
    hit.scale > 0 && hit.x == x * hit.scale && hit.y == y * hit.scale
}

#[test]
fn ray_towards_the_wall_hits_its_middle() {
    let hit = ray(-5, 5, 1, 0).cast(&upright_wall());
    assert_eq!(hit, Some(Hit { x: 0, y: 50, reach: 50, scale: 10 }));
    assert!(is_at(&hit.unwrap(), 0, 5));
}

#[test]
fn turning_the_wall_round_gives_the_same_hit() {
    let turned = Segment::new(Point::new(0, 10), Point::new(0, 0));
    let hit = ray(-5, 5, 1, 0).cast(&turned);
    assert_eq!(hit, Some(Hit { x: 0, y: 50, reach: 50, scale: 10 }));
}

#[test]
fn wall_behind_the_ray_is_not_hit() {
    assert_eq!(ray(5, 5, 1, 0).cast(&upright_wall()), None);
}

#[test]
fn ray_starting_on_the_wall_does_not_hit_it() {
    assert_eq!(ray(0, 5, 1, 0).cast(&upright_wall()), None);
    assert_eq!(ray(0, 5, -1, 0).cast(&upright_wall()), None);
}

#[test]
fn ray_through_an_endpoint_misses() {
    assert_eq!(ray(-5, 0, 1, 0).cast(&upright_wall()), None);
    assert_eq!(ray(-5, 10, 1, 0).cast(&upright_wall()), None);
    assert_eq!(ray(-10, -10, 1, 1).cast(&upright_wall()), None);
    assert_eq!(ray(-10, 0, 1, 1).cast(&upright_wall()), None);
}

#[test]
fn ray_just_inside_an_endpoint_hits() {
    assert_eq!(
        ray(-5, 1, 1, 0).cast(&upright_wall()),
        Some(Hit { x: 0, y: 10, reach: 50, scale: 10 })
    );
    assert_eq!(
        ray(-5, 9, 1, 0).cast(&upright_wall()),
        Some(Hit { x: 0, y: 90, reach: 50, scale: 10 })
    );
}

#[test]
fn ray_past_the_end_of_the_wall_misses() {
    assert_eq!(ray(-5, 11, 1, 0).cast(&upright_wall()), None);
    assert_eq!(ray(-5, -1, 1, 0).cast(&upright_wall()), None);
}

#[test]
fn parallel_ray_beside_the_wall_misses() {
    assert_eq!(ray(-5, 0, 0, 1).cast(&upright_wall()), None);
    assert_eq!(ray(3, 20, 0, -7).cast(&upright_wall()), None);
}

#[test]
fn parallel_ray_along_the_wall_misses() {
    assert_eq!(ray(0, -5, 0, 1).cast(&upright_wall()), None);
    assert_eq!(ray(0, 5, 0, 1).cast(&upright_wall()), None);
    assert_eq!(ray(0, 15, 0, -1).cast(&upright_wall()), None);
}

#[test]
fn parallel_slanted_ray_misses() {
    let wall = Segment::new(Point::new(1, 1), Point::new(7, 4));
    assert_eq!(ray(0, 0, 2, 1).cast(&wall), None);
    assert_eq!(ray(-1, 0, 2, 1).cast(&wall), None);
    assert_eq!(ray(9, 5, -4, -2).cast(&wall), None);
}

#[test]
fn ray_without_direction_hits_nothing() {
    assert_eq!(ray(-5, 5, 0, 0).cast(&upright_wall()), None);
    assert_eq!(ray(0, 5, 0, 0).cast(&upright_wall()), None);
}

#[test]
fn wall_of_one_point_is_never_hit() {
    let dot = Segment::new(Point::new(3, 3), Point::new(3, 3));
    assert_eq!(ray(0, 0, 1, 1).cast(&dot), None);
    assert_eq!(ray(0, 3, 1, 0).cast(&dot), None);
}

#[test]
fn slanted_ray_hits_between_lattice_points() {
    let wall = Segment::new(Point::new(4, 0), Point::new(4, 7));
    let hit = ray(0, 0, 3, 2).cast(&wall).unwrap();
    // The ray y = 2x/3 crosses x = 4 at y = 8/3, after 4/3 direction vectors.
    assert_eq!(hit, Hit { x: 84, y: 56, reach: 28, scale: 21 });
    assert_eq!(hit.x * 3, 4 * 3 * hit.scale);
    assert_eq!(hit.y * 3, 8 * hit.scale);
    assert_eq!(hit.reach * 3, 4 * hit.scale);
}

#[test]
fn slanted_ray_hits_slanted_wall() {
    let wall = Segment::new(Point::new(0, 6), Point::new(6, 0));
    let hit = ray(1, 1, 2, 3).cast(&wall).unwrap();
    // (1, 1) + 4/5 (2, 3) = (13/5, 17/5), and 13/5 + 17/5 = 6.
    assert_eq!(hit, Hit { x: 78, y: 102, reach: 24, scale: 30 });
    assert_eq!(hit.x * 5, 13 * hit.scale);
    assert_eq!(hit.y * 5, 17 * hit.scale);
    assert_eq!(hit.reach * 5, 4 * hit.scale);
}

#[test]
fn hit_lies_on_the_ray_and_on_the_wall() {
    let wall = Segment::new(Point::new(-7, 12), Point::new(9, -3));
    let r = ray(-2, -5, 5, 11);
    let hit = r.cast(&wall).unwrap();
    assert!(hit.scale > 0 && hit.reach > 0);
    // On the ray: origin + reach / scale direction vectors.
    assert_eq!(hit.x - (-2) * hit.scale, hit.reach * 5);
    assert_eq!(hit.y - (-5) * hit.scale, hit.reach * 11);
    // On the wall's line: the vector from one endpoint is along the wall.
    let (wx, wy) = (9 - (-7), -3 - 12);
    assert_eq!((hit.x - (-7) * hit.scale) * wy, (hit.y - 12 * hit.scale) * wx);
}

#[test]
fn length_of_the_direction_does_not_move_the_hit() {
    let wall = Segment::new(Point::new(4, 0), Point::new(4, 7));
    let short = ray(0, 0, 3, 2).cast(&wall).unwrap();
    let long = ray(0, 0, 3000, 2000).cast(&wall).unwrap();
    assert_eq!(short.x * long.scale, long.x * short.scale);
    assert_eq!(short.y * long.scale, long.y * short.scale);
    assert_eq!(short.reach * long.scale, 1000 * long.reach * short.scale);
}

#[test]
fn far_wall_is_still_hit() {
    let wall = Segment::new(Point::new(i32::MAX, i32::MIN), Point::new(i32::MAX, i32::MAX));
    let hit = ray(i32::MIN, 0, 1, 0).cast(&wall);
    assert_eq!(
        hit,
        Some(Hit {
            x: 9223372030412324865,
            y: 0,
            reach: 18446744065119617025,
            scale: 4294967295,
        })
    );
    assert!(is_at(&hit.unwrap(), i32::MAX as i128, 0));
}

#[test]
fn largest_coordinates_do_not_overflow() {
    let wall = Segment::new(Point::new(i32::MIN, i32::MAX), Point::new(i32::MAX, i32::MIN));
    assert_eq!(
        ray(i32::MIN, i32::MIN, i16::MAX, i16::MAX).cast(&wall),
        Some(Hit {
            x: -140733193355265,
            y: -140733193355265,
            reach: 18446744065119617025,
            scale: 281466386710530,
        })
    );
    assert_eq!(
        ray(i32::MAX, i32::MAX, i16::MIN, i16::MIN).cast(&wall),
        Some(Hit {
            x: -140737488322560,
            y: -140737488322560,
            reach: 18446744065119617025,
            scale: 281474976645120,
        })
    );
    let side = Segment::new(Point::new(i32::MAX, i32::MIN), Point::new(i32::MAX, i32::MAX));
    assert_eq!(
        ray(i32::MIN, i32::MIN, i16::MAX, i16::MAX - 1).cast(&side),
        Some(Hit {
            x: 302222231320520648851455,
            y: 302203784576455529234430,
            reach: 18446744065119617025,
            scale: 140733193355265,
        })
    );
}

#[test]
fn ray_from_degrees_points_along_the_heading() {
    let east = Ray::new(Point::new(3, 4), 0);
    assert_eq!(east.origin, Point::new(3, 4));
    assert_eq!(east.dir, Direction::new(16384, 0));
    assert_eq!(Ray::new(Point::new(0, 0), 90).dir, Direction::new(0, 16384));
    assert_eq!(Ray::new(Point::new(0, 0), 450).dir, Direction::new(0, 16384));
    assert_eq!(Ray::new(Point::new(0, 0), 30).dir, Direction::new(14189, 8192));
}
