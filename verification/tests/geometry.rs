use rust_ball_tracking::geometry::{doubled_area, largest_contour, Point};

fn pts(v: &[(i32, i32)]) -> Vec<Point> {
    v.iter().map(|&(x, y)| Point { x, y }).collect()
}

#[test]
fn area_of_empty_contour_is_zero() {
    assert_eq!(doubled_area(&Vec::new()), 0);
}

#[test]
fn area_of_single_point_and_segment_is_zero() {
    assert_eq!(doubled_area(&pts(&[(3, 4)])), 0);
    assert_eq!(doubled_area(&pts(&[(0, 0), (10, 7)])), 0);
}

#[test]
fn area_of_square() {
    // A 4 x 4 square encloses 16 pixels squared: twice that is 32.
    let sq = pts(&[(0, 0), (4, 0), (4, 4), (0, 4)]);
    assert_eq!(doubled_area(&sq), 32);
}

#[test]
fn area_of_triangle_is_odd_when_half_integer() {
    // Right triangle with legs 3 and 1: area 1.5.
    let tri = pts(&[(0, 0), (3, 0), (0, 1)]);
    assert_eq!(doubled_area(&tri), 3);
}

#[test]
fn area_ignores_direction_and_start() {
    let a = pts(&[(1, 1), (7, 2), (9, 8), (2, 6)]);
    let mut rev = a.clone();
    rev.reverse();
    let mut rot = a.clone();
    rot.rotate_left(2);
    let expected = doubled_area(&a);
    assert_eq!(expected, 67);
    assert_eq!(doubled_area(&rev), expected);
    assert_eq!(doubled_area(&rot), expected);
}

#[test]
fn area_with_extreme_coordinates_does_not_overflow() {
    let big = pts(&[(i32::MIN, i32::MIN), (i32::MAX, i32::MIN), (i32::MAX, i32::MAX), (i32::MIN, i32::MAX)]);
    let side = (i32::MAX as i128) - (i32::MIN as i128);
    assert_eq!(doubled_area(&big), (2 * side * side) as u128);
}

#[test]
fn largest_of_no_contours_is_none() {
    assert_eq!(largest_contour(&Vec::new()), None);
}

#[test]
fn largest_contour_is_found() {
    let small = pts(&[(0, 0), (2, 0), (2, 2), (0, 2)]);
    let big = pts(&[(10, 10), (20, 10), (20, 20), (10, 20)]);
    let line = pts(&[(0, 0), (50, 50)]);
    assert_eq!(largest_contour(&vec![small.clone(), big.clone(), line.clone()]), Some(1));
    assert_eq!(largest_contour(&vec![big, small, line]), Some(0));
}

#[test]
fn largest_contour_prefers_the_last_of_equals() {
    let a = pts(&[(0, 0), (3, 0), (3, 3), (0, 3)]);
    let b = pts(&[(5, 5), (8, 5), (8, 8), (5, 8)]);
    let tiny = pts(&[(0, 0), (1, 0), (1, 1)]);
    assert_eq!(largest_contour(&vec![a.clone(), tiny.clone(), b.clone()]), Some(2));
    assert_eq!(largest_contour(&vec![a, b, tiny]), Some(1));
}

#[test]
fn largest_of_degenerate_contours_is_the_last() {
    let p = pts(&[(1, 1)]);
    assert_eq!(largest_contour(&vec![p.clone(), p.clone(), p]), Some(2));
}

#[test]
fn largest_contour_ignores_traversal() {
    let a = pts(&[(0, 0), (6, 0), (6, 5), (0, 5)]);
    let b = pts(&[(0, 0), (5, 0), (5, 6), (0, 6)]);
    // Equal areas: the last one wins, whichever way each is listed.
    let mut b_rev = b.clone();
    b_rev.reverse();
    let mut a_rot = a.clone();
    a_rot.rotate_left(1);
    assert_eq!(largest_contour(&vec![a.clone(), b.clone()]), Some(1));
    assert_eq!(largest_contour(&vec![a_rot, b_rev]), Some(1));
}
