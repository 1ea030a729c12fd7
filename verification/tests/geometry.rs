use traps::{Point, Ratio};

fn pts(coords: &[(i16, i16)]) -> Vec<Point> {
    coords.iter().map(|&(x, y)| Point::new(x, y)).collect()
}

#[test]
fn point_new_keeps_coordinates() {
    let p = Point::new(-7, 12);
    assert_eq!(p.x, -7);
    assert_eq!(p.y, 12);
}

#[test]
fn smaller_is_strict_on_both_axes() {
    let p = Point::new(3, 4);
    assert!(p.smaller(&Point::new(4, 5)));
    assert!(!p.smaller(&Point::new(3, 5)));
    assert!(!p.smaller(&Point::new(4, 4)));
    assert!(!p.smaller(&Point::new(2, 9)));
}

#[test]
fn bigger_is_strict_on_both_axes() {
    let p = Point::new(3, 4);
    assert!(p.bigger(&Point::new(2, 3)));
    assert!(!p.bigger(&Point::new(3, 3)));
    assert!(!p.bigger(&Point::new(2, 4)));
    assert!(!p.bigger(&Point::new(9, 0)));
}

#[test]
fn between_is_the_open_rectangle() {
    let lo = Point::new(0, 0);
    let hi = Point::new(10, 10);
    assert!(Point::new(5, 5).between(&lo, &hi));
    assert!(Point::new(1, 9).between(&lo, &hi));
    assert!(!Point::new(0, 5).between(&lo, &hi));
    assert!(!Point::new(10, 5).between(&lo, &hi));
    assert!(!Point::new(5, 0).between(&lo, &hi));
    assert!(!Point::new(5, 10).between(&lo, &hi));
    assert!(!Point::new(11, 5).between(&lo, &hi));
}

#[test]
fn bounds_of_a_single_point_is_zero() {
    assert_eq!(Point::bounds(&pts(&[(17, -4)])), (0, 0));
}

#[test]
fn bounds_of_no_points_is_zero() {
    assert_eq!(Point::bounds(&Vec::new()), (0, 0));
}

#[test]
fn bounds_is_max_minus_min_per_axis() {
    assert_eq!(Point::bounds(&pts(&[(0, 0), (100, 0)])), (100, 0));
    assert_eq!(Point::bounds(&pts(&[(300, 422), (500, 488)])), (200, 66));
    assert_eq!(Point::bounds(&pts(&[(5, 5), (10, 0), (0, 10)])), (10, 10));
}

#[test]
fn bounds_tracks_minimum_and_maximum_independently() {
    // Every point after the first is a new minimum and never a new maximum.
    assert_eq!(Point::bounds(&pts(&[(10, 10), (5, 5), (0, 0)])), (10, 10));
    // Every point after the first is a new maximum and never a new minimum.
    assert_eq!(Point::bounds(&pts(&[(0, 0), (5, 5), (10, 10)])), (10, 10));
    // All points are negative.
    assert_eq!(Point::bounds(&pts(&[(-3, -8), (-9, -2)])), (6, 6));
}

#[test]
fn bounds_spans_the_whole_coordinate_range() {
    let all = pts(&[(i16::MIN, i16::MAX), (i16::MAX, i16::MIN)]);
    assert_eq!(Point::bounds(&all), (65535, 65535));
}

#[test]
fn bounds_is_zero_exactly_on_a_flat_axis() {
    let (w, h) = Point::bounds(&pts(&[(4, 1), (4, 7), (4, -3)]));
    assert_eq!(w, 0);
    assert_eq!(h, 10);
    let (w, h) = Point::bounds(&pts(&[(4, 1), (5, 1)]));
    assert_eq!(w, 1);
    assert_eq!(h, 0);
}

#[test]
fn ratio_new_refuses_a_zero_denominator() {
    assert_eq!(Ratio::new(3, 0), None);
    assert_eq!(Ratio::new(3, 4), Some(Ratio { num: 3, den: 4 }));
    assert_eq!(Ratio::whole(20), Ratio { num: 20, den: 1 });
    assert_eq!(Ratio::one(), Ratio { num: 1, den: 1 });
}

fn matched_x(live: i16, template: i16, scale: Ratio, tolerance: Ratio) -> bool {
    let o = Point::new(0, 0);
    Point::matched(
        &o,
        &Point::new(live, 0),
        &o,
        &Point::new(template, 0),
        scale,
        Ratio::one(),
        tolerance,
    )
}

#[test]
fn matched_compares_strictly_with_the_tolerance() {
    let one = Ratio::one();
    let tol = Ratio::whole(5);
    assert!(matched_x(100, 100, one, tol));
    assert!(matched_x(103, 100, one, tol));
    assert!(matched_x(104, 100, one, tol));
    assert!(!matched_x(105, 100, one, tol));
    assert!(!matched_x(106, 100, one, tol));
    assert!(matched_x(96, 100, one, tol));
    assert!(!matched_x(95, 100, one, tol));
}

#[test]
fn matched_with_zero_tolerance_is_never_true() {
    assert!(!matched_x(100, 100, Ratio::one(), Ratio::whole(0)));
}

#[test]
fn matched_scales_the_live_displacement() {
    let double = Ratio { num: 100, den: 50 };
    let tol = Ratio::whole(5);
    assert!(matched_x(50, 100, double, tol));
    // 52 * 2 = 104, 53 * 2 = 106
    assert!(matched_x(52, 100, double, tol));
    assert!(!matched_x(53, 100, double, tol));
    // 100 / 3 of 9 is 300: |300 - 296| < 5, |300 - 295| = 5
    let third = Ratio { num: 100, den: 3 };
    assert!(matched_x(9, 296, third, tol));
    assert!(!matched_x(9, 295, third, tol));
}

#[test]
fn matched_takes_a_fractional_tolerance() {
    let half = Ratio { num: 5, den: 2 };
    assert!(matched_x(102, 100, Ratio::one(), half));
    assert!(!matched_x(103, 100, Ratio::one(), half));
    // 7/3 of 3 is 7: |7 - 5| = 2 < 5/2, |7 - 4| = 3
    let scale = Ratio { num: 7, den: 3 };
    assert!(matched_x(3, 5, scale, half));
    assert!(!matched_x(3, 4, scale, half));
}

#[test]
fn matched_needs_both_axes() {
    let one = Ratio::one();
    let tol = Ratio::whole(5);
    let o = Point::new(0, 0);
    assert!(Point::matched(&o, &Point::new(10, 20), &o, &Point::new(12, 18), one, one, tol));
    assert!(!Point::matched(&o, &Point::new(10, 20), &o, &Point::new(12, 30), one, one, tol));
    assert!(!Point::matched(&o, &Point::new(10, 20), &o, &Point::new(22, 18), one, one, tol));
}

#[test]
fn matched_compares_displacements_not_positions() {
    let one = Ratio::one();
    let tol = Ratio::whole(5);
    let a = Point::new(300, 422);
    let b = Point::new(400, 422);
    let o = Point::new(0, 0);
    assert!(Point::matched(&a, &b, &o, &Point::new(100, 0), one, one, tol));
    assert!(!Point::matched(&a, &b, &o, &Point::new(-100, 0), one, one, tol));
}

#[test]
fn matched_does_not_overflow_at_the_extremes() {
    let lo = Point::new(i16::MIN, i16::MIN);
    let hi = Point::new(i16::MAX, i16::MAX);
    let big = Ratio { num: u32::MAX, den: 1 };
    let tol = Ratio { num: u32::MAX, den: u32::MAX };
    assert!(!Point::matched(&lo, &hi, &hi, &lo, big, big, tol));
    assert!(Point::matched(&lo, &hi, &lo, &hi, Ratio::one(), Ratio::one(), tol));
}
