use mapgame::math::{polygon_area, polygon_area2, polygon_contains, ring_bounds, Point};

fn pt(x: i64, y: i64) -> Point {
    Point { x, y }
}

fn unit_square() -> Vec<Point> {
    vec![pt(0, 0), pt(1, 0), pt(1, 1), pt(0, 1)]
}

#[test]
fn area_of_unit_square_is_one() {
    let square = unit_square();
    assert_eq!(polygon_area2(&square), 2);
    assert_eq!(polygon_area(&square), 1);
    assert_eq!(polygon_area2(&square) as f64 / 2.0, 1.0);
}

#[test]
fn area_of_triangle_is_six() {
    let triangle = vec![pt(0, 0), pt(4, 0), pt(0, 3)];
    assert_eq!(polygon_area2(&triangle), 12);
    assert_eq!(polygon_area2(&triangle) as f64 / 2.0, 6.0);
}

#[test]
fn area_is_invariant_under_rotation_and_reversal() {
    let ring = vec![pt(0, 0), pt(7, 1), pt(9, 6), pt(4, 9), pt(-2, 5)];
    let base = polygon_area2(&ring);
    for k in 0..ring.len() {
        let mut rotated: Vec<Point> = ring[k..].to_vec();
        rotated.extend_from_slice(&ring[..k]);
        assert_eq!(polygon_area2(&rotated), base);
        let mut reversed = rotated.clone();
        reversed.reverse();
        assert_eq!(polygon_area2(&reversed), base);
    }
}

#[test]
fn area_of_degenerate_rings_is_zero() {
    assert_eq!(polygon_area2(&vec![]), 0);
    assert_eq!(polygon_area2(&vec![pt(3, 4)]), 0);
    assert_eq!(polygon_area2(&vec![pt(3, 4), pt(8, -2)]), 0);
}

#[test]
fn contains_centroid_of_convex_polygons() {
    let square = vec![pt(0, 0), pt(10, 0), pt(10, 10), pt(0, 10)];
    assert!(polygon_contains(pt(5, 5), &square));
    let triangle = vec![pt(0, 0), pt(9, 0), pt(0, 9)];
    assert!(polygon_contains(pt(3, 3), &triangle));
    let hexagon = vec![pt(2, 0), pt(6, 0), pt(8, 4), pt(6, 8), pt(2, 8), pt(0, 4)];
    assert!(polygon_contains(pt(4, 4), &hexagon));
}

#[test]
fn does_not_contain_points_far_outside_the_bounding_box() {
    let square = vec![pt(0, 0), pt(10, 0), pt(10, 10), pt(0, 10)];
    assert!(!polygon_contains(pt(100, 5), &square));
    assert!(!polygon_contains(pt(-100, 5), &square));
    assert!(!polygon_contains(pt(5, 100), &square));
    assert!(!polygon_contains(pt(5, -100), &square));
    assert!(!polygon_contains(pt(100, 100), &square));
}

#[test]
fn concave_polygon_is_handled_by_ray_casting() {
    // A "U" shape: the notch between the arms is outside.
    let u_shape = vec![
        pt(0, 0),
        pt(12, 0),
        pt(12, 10),
        pt(8, 10),
        pt(8, 4),
        pt(4, 4),
        pt(4, 10),
        pt(0, 10),
    ];
    assert!(polygon_contains(pt(2, 7), &u_shape));
    assert!(polygon_contains(pt(10, 7), &u_shape));
    assert!(!polygon_contains(pt(6, 7), &u_shape));
    assert!(polygon_contains(pt(6, 2), &u_shape));
}

#[test]
fn ring_bounds_are_the_tight_extrema() {
    let ring = vec![pt(3, -4), pt(-7, 2), pt(5, 9)];
    let b = ring_bounds(&ring);
    assert_eq!(b.min_x, -7);
    assert_eq!(b.max_x, 5);
    assert_eq!(b.min_y, -4);
    assert_eq!(b.max_y, 9);
    assert!(b.contains(pt(0, 0)));
    assert!(!b.contains(pt(6, 0)));
}

#[test]
fn bounds_of_empty_ring_contain_nothing() {
    let b = ring_bounds(&vec![]);
    assert!(!b.contains(pt(0, 0)));
}

#[test]
fn bounding_box_prefilter_agrees_with_the_full_test() {
    let ring = vec![pt(0, 0), pt(10, 0), pt(10, 10), pt(0, 10)];
    let b = ring_bounds(&ring);
    for x in -3..14 {
        for y in -3..14 {
            let p = pt(x, y);
            if !b.contains(p) {
                assert!(!polygon_contains(p, &ring));
            }
        }
    }
}
