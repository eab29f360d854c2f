use gears::controls::{respond_to_key, Key, Response};
use gears::gear::{sample, Gear, FULL_TURN};
use gears::geometry::{
    from_screen, rotate, to_screen, transform, translate, Point, Rotation, COORD_LIMIT, ROTOR_ONE,
};

fn quarter_turn() -> Rotation {
    Rotation::new(0, ROTOR_ONE).unwrap()
}

fn half_turn() -> Rotation {
    Rotation::new(-ROTOR_ONE, 0).unwrap()
}

/// The lobed demo curve, rounded to whole units.
fn lobed_curve(i: u32, n: u32) -> Point {
    let s = i as f64 / n as f64;
    let tau = 2.0 * std::f64::consts::PI;
    let r = 10.0 * (s * 20.0 * std::f64::consts::PI).sin() + 100.0;
    Point::new((r * (s * tau).cos()).round() as i64, (r * (s * tau).sin()).round() as i64)
}

fn norm2(p: Point) -> i64 {
    p.x * p.x + p.y * p.y
}

#[test]
fn sample_gives_each_parameter_once() {
    let pts = sample(|i: u32, n: u32| Point::new(i as i64, n as i64), 100);
    assert_eq!(pts.len(), 100);
    for (i, p) in pts.iter().enumerate() {
        assert_eq!(*p, Point::new(i as i64, 100));
    }
    assert_eq!(pts[99], Point::new(99, 100));
}

#[test]
fn sample_of_no_segments_is_empty() {
    let pts = sample(|i: u32, n: u32| Point::new(i as i64, n as i64), 0);
    assert!(pts.is_empty());
}

#[test]
fn sample_of_demo_curve_starts_on_the_x_axis() {
    let pts = sample(lobed_curve, 100);
    assert_eq!(pts.len(), 100);
    assert_eq!(pts[0], Point::new(100, 0));
    assert_eq!(pts[25], Point::new(0, 100));
}

#[test]
fn rotation_keeps_length() {
    let p = Point::new(3, 4);
    let q = rotate(p, quarter_turn());
    assert_eq!(q, Point::new(-4, 3));
    assert_eq!(norm2(q), norm2(p));
    let r = rotate(p, half_turn());
    assert_eq!(r, Point::new(-3, -4));
    assert_eq!(norm2(r), 25);
}

#[test]
fn rotation_rounds_to_nearest_unit() {
    let eighth = Rotation::new(46341, 46341).unwrap();
    assert_eq!(rotate(Point::new(1000, 0), eighth), Point::new(707, 707));
    assert_eq!(rotate(Point::new(0, 1000), eighth), Point::new(-707, 707));
}

#[test]
fn rotations_compose() {
    let p = Point::new(17, -5);
    let twice = rotate(rotate(p, quarter_turn()), quarter_turn());
    assert_eq!(twice, rotate(p, half_turn()));
    assert_eq!(twice, Point::new(-17, 5));
}

#[test]
fn identity_rotation_keeps_point() {
    let p = Point::new(-123, 456);
    assert_eq!(rotate(p, Rotation::identity()), p);
}

#[test]
fn rotor_components_are_bounded() {
    assert!(Rotation::new(ROTOR_ONE + 1, 0).is_none());
    assert!(Rotation::new(0, -ROTOR_ONE - 1).is_none());
    let r = Rotation::new(-ROTOR_ONE, ROTOR_ONE).unwrap();
    assert_eq!((r.cos(), r.sin()), (-ROTOR_ONE, ROTOR_ONE));
}

#[test]
fn translate_then_back() {
    let p = Point::new(12, -7);
    let moved = translate(p, 37);
    assert_eq!(moved, Point::new(49, -7));
    assert_eq!(translate(moved, -37), p);
}

#[test]
fn screen_mapping_round_trip() {
    let p = Point::new(10, 20);
    let q = to_screen(p, 1000, 1000);
    assert_eq!(q, Point::new(510, 480));
    assert_eq!(from_screen(q, 1000, 1000), p);
    let odd = to_screen(p, 801, 601);
    assert_eq!(odd, Point::new(410, 280));
    assert_eq!(from_screen(odd, 801, 601), p);
    assert_eq!(to_screen(Point::new(0, 0), 1000, 1000), Point::new(500, 500));
}

#[test]
fn transform_order_is_spin_move_revolve() {
    let p = Point::new(100, 0);
    assert_eq!(transform(p, half_turn(), 250, quarter_turn()), Point::new(0, 150));
    // revolving before moving would give another point
    assert_eq!(transform(p, Rotation::identity(), 250, quarter_turn()), Point::new(0, 350));
    assert_eq!(transform(p, quarter_turn(), 250, Rotation::identity()), Point::new(250, 100));
}

#[test]
fn zero_time_is_plain_translation() {
    let gear = Gear::new(250, 90, 45);
    assert_eq!(gear.angles_at(0), (0, 0));
    let outline = vec![Point::new(100, 0)];
    let v = gear
        .vertices(&outline, Rotation::identity(), Rotation::identity(), 1000, 1000)
        .unwrap();
    assert_eq!(v, vec![Point::new(850, 500)]);
}

#[test]
fn angles_repeat_after_common_period() {
    let gear = Gear::new(250, 90, 45);
    // 90 deg/s turns once in 4 s, 45 deg/s once in 8 s
    for t in [0u64, 1, 333, 2000, 7999, 123456] {
        assert_eq!(gear.angles_at(t), gear.angles_at(t + 8000));
    }
    assert_ne!(gear.angles_at(1000), gear.angles_at(5000));
    assert_eq!(gear.angles_at(1000).0, gear.angles_at(5000).0);
}

#[test]
fn angles_of_negative_rates_and_large_times() {
    let gear = Gear::new(0, -90, 1);
    assert_eq!(gear.angles_at(1000), (270000, 1000));
    let big = u64::MAX;
    let expected_slow = ((big as u128) % (FULL_TURN as u128)) as u32;
    let expected_spin = ((FULL_TURN as i128 - ((90 * big as i128) % FULL_TURN as i128))
        % FULL_TURN as i128) as u32;
    assert_eq!(gear.angles_at(big), (expected_spin, expected_slow));
}

#[test]
fn end_to_end_first_point() {
    let gear = Gear::new(250, 90, 45);
    let (spin, rev) = gear.angles_at(2000);
    assert_eq!((spin, rev), (180000, 90000));
    let outline = sample(lobed_curve, 100);
    let v = gear.vertices(&outline, half_turn(), quarter_turn(), 1000, 1000).unwrap();
    assert_eq!(v.len(), 100);
    // (100, 0) turned half way is (-100, 0), moved to (150, 0), turned a
    // quarter to (0, 150), drawn at (500, 350)
    assert_eq!(v[0], Point::new(500, 350));
}

#[test]
fn vertices_refuse_points_beyond_limit() {
    let gear = Gear::new(250, 90, 45);
    let outline = vec![Point::new(0, 0), Point::new(COORD_LIMIT + 1, 0)];
    assert!(gear
        .vertices(&outline, Rotation::identity(), Rotation::identity(), 1000, 1000)
        .is_none());
    let far = Gear::new(-COORD_LIMIT - 1, 90, 45);
    assert!(far
        .vertices(&vec![Point::new(0, 0)], Rotation::identity(), Rotation::identity(), 10, 10)
        .is_none());
    let edge = Gear::new(COORD_LIMIT, 0, 0);
    let v = edge
        .vertices(&vec![Point::new(COORD_LIMIT, -COORD_LIMIT)], Rotation::identity(), Rotation::identity(), 0, 0)
        .unwrap();
    assert_eq!(v, vec![Point::new(2 * COORD_LIMIT, COORD_LIMIT)]);
}

#[test]
fn escape_ends_the_loop() {
    assert_eq!(respond_to_key(Key::Escape), Response::Terminate);
    assert_eq!(respond_to_key(Key::Other), Response::Continue);
}
