use rust_ball_tracking::geometry::Point;
use rust_ball_tracking::tracker::{annotation, label_in_range, Annotation, Sighting, Tracker, LABEL_MARGIN, MIN_BALL_RADIUS};

fn sighting(cx: i32, cy: i32, down: i32, up: i32) -> Sighting {
    Sighting {
        centroid: Point { x: cx, y: cy },
        circle_center: Point { x: cx + 1, y: cy - 1 },
        radius_down: down,
        radius_up: up,
    }
}

/// What the pipeline would hand over for an enclosing circle of radius `r`.
fn from_radius(cx: i32, cy: i32, r: f32) -> Sighting {
    sighting(cx, cy, r as i32, r.ceil() as i32)
}

#[test]
fn new_tracker_reports_no_offset_without_ball() {
    let mut t = Tracker::new(480, 640);
    assert_eq!(t.track(None), (0, 0));
}

#[test]
fn ball_right_and_above_middle() {
    // Middle of a 640 x 480 frame is (320, 240).
    let mut t = Tracker::new(480, 640);
    assert_eq!(t.track(Some(sighting(400, 200, 20, 21))), (80, 40));
}

#[test]
fn ball_left_and_below_middle() {
    let mut t = Tracker::new(480, 640);
    assert_eq!(t.track(Some(sighting(100, 300, 8, 8))), (-220, -60));
}

#[test]
fn centered_ball_has_no_offset() {
    let mut t = Tracker::new(480, 640);
    assert_eq!(t.track(Some(sighting(320, 240, 30, 30))), (0, 0));
}

#[test]
fn odd_frame_size_rounds_middle_down() {
    // Middle of a 641 x 481 frame is (320, 240).
    let mut t = Tracker::new(481, 641);
    assert_eq!(t.track(Some(sighting(320, 240, 30, 30))), (0, 0));
}

#[test]
fn negative_frame_size_rounds_toward_zero() {
    // -7 / 2 is -3 in Rust.
    let mut t = Tracker::new(-7, -7);
    assert_eq!(t.track(Some(sighting(0, 0, 30, 30))), (3, -3));
}

#[test]
fn small_blob_is_not_the_ball() {
    let mut t = Tracker::new(480, 640);
    assert_eq!(t.track(Some(from_radius(400, 200, 5.0))), (0, 0));
    assert_eq!(t.track(Some(from_radius(400, 200, 4.9))), (0, 0));
}

#[test]
fn blob_just_over_the_threshold_is_the_ball() {
    let mut t = Tracker::new(480, 640);
    assert_eq!(t.track(Some(from_radius(400, 200, 5.01))), (80, 40));
    assert_eq!(MIN_BALL_RADIUS, 5);
}

#[test]
fn track_forgets_previous_offset() {
    let mut t = Tracker::new(480, 640);
    assert_eq!(t.track(Some(sighting(400, 200, 20, 21))), (80, 40));
    assert_eq!(t.track(Some(sighting(320, 100, 20, 21))), (0, 140));
    assert_eq!(t.track(None), (0, 0));
    let mut fresh = Tracker::new(480, 640);
    assert_eq!(fresh.track(Some(sighting(320, 100, 20, 21))), (0, 140));
}

#[test]
fn offsets_in_range_detects_overflow() {
    let t = Tracker::new(480, 640);
    assert!(t.offsets_in_range(&None));
    assert!(t.offsets_in_range(&Some(sighting(400, 200, 20, 21))));
    assert!(!t.offsets_in_range(&Some(sighting(i32::MIN, 200, 20, 21))));
    // Too small to be the ball: nothing is subtracted.
    assert!(t.offsets_in_range(&Some(sighting(i32::MIN, 200, 2, 3))));
    let n = Tracker::new(-480, -640);
    assert!(!n.offsets_in_range(&Some(sighting(i32::MAX, 200, 20, 21))));
    assert!(!t.offsets_in_range(&Some(sighting(0, i32::MIN, 20, 21))));
}

#[test]
fn annotation_of_a_ball() {
    let s = sighting(100, 80, 20, 21);
    assert_eq!(
        annotation(&s),
        Some(Annotation {
            label: Point { x: 100 - 20 - LABEL_MARGIN, y: 80 - 20 - LABEL_MARGIN },
            circle_center: Point { x: 101, y: 79 },
            circle_radius: 20,
            centroid: Point { x: 100, y: 80 },
        })
    );
    assert_eq!(annotation(&s).unwrap().label, Point { x: 70, y: 50 });
}

#[test]
fn no_annotation_for_small_blob() {
    assert_eq!(annotation(&sighting(100, 80, 5, 5)), None);
}

#[test]
fn label_in_range_detects_overflow() {
    assert!(label_in_range(&sighting(100, 80, 20, 21)));
    assert!(!label_in_range(&sighting(i32::MIN + 15, 80, 20, 21)));
    assert!(!label_in_range(&sighting(100, i32::MIN + 5, 1, 6)));
    assert!(label_in_range(&sighting(i32::MIN, i32::MIN, 1, 2)));
}
