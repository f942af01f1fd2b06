use raycasting::geometry::Direction;
use raycasting::heading::{sine_lookup, FULL_TURN, UNIT};

#[test]
fn unit_and_full_turn() {
    assert_eq!(UNIT, 16384);
    assert_eq!(FULL_TURN, 360);
}

#[test]
fn axis_headings_are_exact() {
    assert_eq!(Direction::from_degrees(0), Direction::new(16384, 0));
    assert_eq!(Direction::from_degrees(90), Direction::new(0, 16384));
    assert_eq!(Direction::from_degrees(180), Direction::new(-16384, 0));
    assert_eq!(Direction::from_degrees(270), Direction::new(0, -16384));
}

#[test]
fn some_headings_by_value() {
    assert_eq!(Direction::from_degrees(1), Direction::new(16382, 286));
    assert_eq!(Direction::from_degrees(30), Direction::new(14189, 8192));
    assert_eq!(Direction::from_degrees(45), Direction::new(11585, 11585));
    assert_eq!(Direction::from_degrees(60), Direction::new(8192, 14189));
    assert_eq!(Direction::from_degrees(120), Direction::new(-8192, 14189));
    assert_eq!(Direction::from_degrees(210), Direction::new(-14189, -8192));
    assert_eq!(Direction::from_degrees(300), Direction::new(8192, -14189));
    assert_eq!(Direction::from_degrees(359), Direction::new(16382, -286));
}

#[test]
fn degrees_wrap_after_a_full_turn() {
    assert_eq!(Direction::from_degrees(360), Direction::from_degrees(0));
    assert_eq!(Direction::from_degrees(361), Direction::from_degrees(1));
    assert_eq!(Direction::from_degrees(725), Direction::from_degrees(5));
    assert_eq!(Direction::from_degrees(u16::MAX), Direction::from_degrees(15));
}

#[test]
fn table_ends_and_middle() {
    assert_eq!(sine_lookup(0), 0);
    assert_eq!(sine_lookup(30), 8192);
    assert_eq!(sine_lookup(45), 11585);
    assert_eq!(sine_lookup(89), 16382);
    assert_eq!(sine_lookup(90), 16384);
}

#[test]
fn table_is_the_rounded_sine() {
    for k in 0..=90u16 {
        let exact = (k as f64).to_radians().sin() * 16384.0;
        assert_eq!(sine_lookup(k) as f64, exact.round(), "at {} degrees", k);
    }
}

#[test]
fn headings_are_the_rounded_cosine_and_sine() {
    for deg in 0..360u16 {
        let angle = (deg as f64).to_radians();
        let d = Direction::from_degrees(deg);
        assert_eq!(d.dx as f64, (angle.cos() * 16384.0).round(), "cosine of {}", deg);
        assert_eq!(d.dy as f64, (angle.sin() * 16384.0).round(), "sine of {}", deg);
    }
}

#[test]
fn headings_are_about_one_unit_long() {
    for deg in 0..360u16 {
        let d = Direction::from_degrees(deg);
        let norm2 = d.dx as i64 * d.dx as i64 + d.dy as i64 * d.dy as i64;
        assert!(16383 * 16383 < norm2 && norm2 < 16385 * 16385, "at {} degrees", deg);
    }
}

#[test]
fn headings_are_all_different() {
    for a in 0..360u16 {
        for b in (a + 1)..360u16 {
            assert_ne!(Direction::from_degrees(a), Direction::from_degrees(b));
        }
    }
}

#[test]
fn each_degree_turns_left_by_an_even_step() {
    for deg in 0..360u16 {
        let v = Direction::from_degrees(deg);
        let w = Direction::from_degrees(deg + 1);
        let cross = v.dx as i64 * w.dy as i64 - v.dy as i64 * w.dx as i64;
        let dot = v.dx as i64 * w.dx as i64 + v.dy as i64 * w.dy as i64;
        assert!(57 * cross < 16384 * 16384 && 16384 * 16384 < 58 * cross, "at {} degrees", deg);
        assert!(dot > 0);
        let step = (cross as f64).atan2(dot as f64).to_degrees();
        assert!((step - 1.0).abs() < 0.01, "step of {} at {} degrees", step, deg);
    }
}
