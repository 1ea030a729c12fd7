use std::sync::Arc;
use traps::{
    Area, Constraint, Gesture, GestureAttributes, Point, Ratio, TrackedGesture, DEFAULT_TOLERANCE,
};

fn path(coords: &[(i16, i16)]) -> Vec<Point> {
    coords.iter().map(|&(x, y)| Point::new(x, y)).collect()
}

#[test]
fn default_attributes() {
    let attributes = GestureAttributes::default();
    assert_eq!(attributes.name, "");
    assert_eq!(attributes.action, "");
    assert!(!attributes.is_relative);
    assert_eq!(attributes.tolerance, Ratio { num: 20, den: 1 });
    assert_eq!(DEFAULT_TOLERANCE, 20);
}

#[test]
fn new_gesture_takes_its_attributes() {
    let mut attributes = GestureAttributes::default();
    attributes.name = "Right-swipe";
    attributes.action = "some action";
    attributes.is_relative = true;
    attributes.tolerance = Ratio::whole(7);
    let gesture = Gesture::new(&attributes);
    assert_eq!(gesture.name, "Right-swipe");
    assert_eq!(gesture.action, "some action");
    assert!(gesture.is_relative);
    assert!(gesture.is_relative());
    assert_eq!(gesture.name(), "Right-swipe");
    assert_eq!(gesture.action(), "some action");
    assert_eq!(gesture.tolerance, Ratio::whole(7));
    assert_eq!(gesture.tolerance(), Ratio::whole(7));
    assert_eq!(gesture.points_count(), 0);
    assert_eq!(gesture.width(), 0);
    assert_eq!(gesture.height(), 0);
}

#[test]
fn points_are_kept_in_order() {
    let mut gesture = Gesture::new(&GestureAttributes::default());
    gesture.add_point(Point::new(0, 0));
    gesture.add_points(path(&[(10, 0), (10, 10)]));
    gesture.add_point(Point::new(0, 10));
    assert_eq!(gesture.points_count(), 4);
    assert_eq!(*gesture.first(), Point::new(0, 0));
    assert_eq!(*gesture.get_point(1), Point::new(10, 0));
    assert_eq!(*gesture.get_point(2), Point::new(10, 10));
    assert_eq!(*gesture.last(), Point::new(0, 10));
}

#[test]
fn calculate_bounds_records_the_size() {
    let mut gesture = Gesture::new(&GestureAttributes::default());
    gesture.add_points(path(&[(0, 0), (-100, 0), (-100, 40)]));
    assert_eq!((gesture.width(), gesture.height()), (0, 0));
    gesture.calculate_bounds();
    assert_eq!((gesture.width(), gesture.height()), (100, 40));
}

#[test]
fn gesture_without_constraints_always_passes() {
    let gesture = Gesture::new(&GestureAttributes::default());
    assert!(gesture.constraints_matching(&path(&[(10, 10)])));
    assert!(gesture.constraints_matching(&path(&[(-5, 3), (700, 2)])));
    assert!(gesture.constraints_matching(&Vec::new()));
}

#[test]
fn start_area_looks_at_the_first_point() {
    let mut gesture = Gesture::new(&GestureAttributes::default());
    gesture.add_constraint(Constraint::StartArea(Area::Smaller(Point::new(0, 0))));
    assert!(!gesture.constraints_matching(&path(&[(10, 10), (-5, -5)])));
    assert!(gesture.constraints_matching(&path(&[(-5, -5), (10, 10)])));
    assert!(!gesture.constraints_matching(&path(&[(0, -5), (10, 10)])));
}

#[test]
fn stop_area_looks_at_the_last_point() {
    let mut gesture = Gesture::new(&GestureAttributes::default());
    gesture.add_constraint(Constraint::StopArea(Area::Bigger(Point::new(100, 100))));
    assert!(gesture.constraints_matching(&path(&[(0, 0), (101, 101)])));
    assert!(!gesture.constraints_matching(&path(&[(101, 101), (0, 0)])));
    assert!(!gesture.constraints_matching(&path(&[(0, 0), (100, 101)])));
}

#[test]
fn between_area_is_open() {
    let mut gesture = Gesture::new(&GestureAttributes::default());
    gesture.add_constraint(Constraint::StartArea(Area::Between(
        Point::new(0, 0),
        Point::new(10, 10),
    )));
    assert!(gesture.constraints_matching(&path(&[(5, 5)])));
    assert!(!gesture.constraints_matching(&path(&[(0, 5)])));
    assert!(!gesture.constraints_matching(&path(&[(5, 10)])));
}

#[test]
fn all_constraints_have_to_hold() {
    let mut gesture = Gesture::new(&GestureAttributes::default());
    gesture.add_constraint(Constraint::StartArea(Area::Smaller(Point::new(10, 10))));
    gesture.add_constraint(Constraint::StopArea(Area::Bigger(Point::new(50, 50))));
    assert!(gesture.constraints_matching(&path(&[(1, 1), (60, 60)])));
    assert!(!gesture.constraints_matching(&path(&[(1, 1), (40, 60)])));
    assert!(!gesture.constraints_matching(&path(&[(11, 1), (60, 60)])));
    // One point is both the first and the last.
    assert!(!gesture.constraints_matching(&path(&[(1, 1)])));
}

#[test]
fn a_constraint_does_not_hold_of_an_empty_stroke() {
    let mut gesture = Gesture::new(&GestureAttributes::default());
    gesture.add_constraint(Constraint::StartArea(Area::Bigger(Point::new(-1, -1))));
    assert!(!gesture.constraints_matching(&Vec::new()));
}

#[test]
fn area_contains() {
    assert!(Area::Smaller(Point::new(0, 0)).contains(&Point::new(-1, -1)));
    assert!(!Area::Smaller(Point::new(0, 0)).contains(&Point::new(10, 10)));
    assert!(Area::Bigger(Point::new(0, 0)).contains(&Point::new(10, 10)));
    assert!(!Area::Bigger(Point::new(0, 0)).contains(&Point::new(0, 10)));
    let inside = Area::Between(Point::new(-2, -2), Point::new(2, 2));
    assert!(inside.contains(&Point::new(0, 1)));
    assert!(!inside.contains(&Point::new(2, 1)));
}

fn swipe(is_relative: bool) -> Arc<Gesture> {
    let mut attributes = GestureAttributes::default();
    attributes.is_relative = is_relative;
    attributes.tolerance = Ratio::whole(5);
    let mut gesture = Gesture::new(&attributes);
    gesture.add_points(path(&[(0, 0), (100, 0), (100, 60)]));
    gesture.add_constraint(Constraint::StartArea(Area::Smaller(Point::new(50, 50))));
    gesture.calculate_bounds();
    Arc::new(gesture)
}

#[test]
fn tracked_gesture_starts_at_the_beginning() {
    let cursor = TrackedGesture::new(swipe(true));
    assert_eq!(cursor.matched_points, 0);
    assert_eq!(cursor.matched(), 0);
    assert_eq!(cursor.xscale, Ratio::one());
    assert_eq!(cursor.yscale, Ratio::one());
    assert!(!cursor.all_matched());
}

#[test]
fn tracked_gesture_reads_its_gesture() {
    let cursor = TrackedGesture::new(swipe(true));
    assert!(cursor.is_relative());
    assert_eq!(cursor.points_count(), 3);
    assert_eq!(*cursor.first(), Point::new(0, 0));
    assert_eq!(*cursor.last(), Point::new(100, 60));
    assert_eq!(*cursor.get_point(1), Point::new(100, 0));
    assert_eq!(cursor.tolerance(), Ratio::whole(5));
    assert_eq!(cursor.gesture().points_count(), 3);
    assert_eq!(cursor.shared_gesture().width(), 100);
    assert!(cursor.constraints_matching(&path(&[(0, 0)])));
    assert!(!cursor.constraints_matching(&path(&[(50, 0)])));
    assert!(!TrackedGesture::new(swipe(false)).is_relative());
}

#[test]
fn inc_matched_reaches_the_end() {
    let mut cursor = TrackedGesture::new(swipe(false));
    cursor.inc_matched();
    assert_eq!(cursor.matched(), 1);
    assert!(!cursor.all_matched());
    cursor.inc_matched();
    cursor.inc_matched();
    assert_eq!(cursor.matched(), 3);
    assert!(cursor.all_matched());
}

#[test]
fn determine_scale_is_template_size_over_stroke_size() {
    let mut cursor = TrackedGesture::new(swipe(true));
    cursor.determine_scale(50, 120);
    assert_eq!(cursor.xscale(), Ratio { num: 100, den: 50 });
    assert_eq!(cursor.yscale(), Ratio { num: 60, den: 120 });
    assert_eq!(cursor.matched(), 0);
}

#[test]
fn determine_scale_leaves_an_absolute_gesture_alone() {
    let mut cursor = TrackedGesture::new(swipe(false));
    cursor.determine_scale(50, 120);
    assert_eq!(cursor.xscale(), Ratio::one());
    assert_eq!(cursor.yscale(), Ratio::one());
}

#[test]
fn determine_scale_leaves_a_flat_axis_alone() {
    let mut cursor = TrackedGesture::new(swipe(true));
    cursor.determine_scale(0, 30);
    assert_eq!(cursor.xscale(), Ratio::one());
    assert_eq!(cursor.yscale(), Ratio { num: 60, den: 30 });
    cursor.determine_scale(200, 0);
    assert_eq!(cursor.xscale(), Ratio { num: 100, den: 200 });
    assert_eq!(cursor.yscale(), Ratio { num: 60, den: 30 });
}
