use meshgen::arith::isqrt;
use meshgen::geometry::{
    centroid, count_pieces, edge_crossed, find_point, orientation, point_at_step,
    point_in_polygon, point_in_slice, points_within, subdivide_boundary, Point,
};

fn pt(x: i64, y: i64) -> Point {
    Point::new(x, y)
}

#[test]
fn integer_square_root_rounds_down() {
    assert_eq!(isqrt(0), 0);
    assert_eq!(isqrt(1), 1);
    assert_eq!(isqrt(3), 1);
    assert_eq!(isqrt(4), 2);
    assert_eq!(isqrt(99), 9);
    assert_eq!(isqrt(100), 10);
    assert_eq!(isqrt(10_000_000_000_000_000), 100_000_000);
    assert_eq!(isqrt(u128::MAX), u64::MAX);
}

#[test]
fn distance_is_exact_when_squared_and_rounded_down_otherwise() {
    let a = pt(0, 0);
    let b = pt(3, 4);
    assert_eq!(a.distance_squared_to(&b), 25);
    assert_eq!(a.distance_to(&b), 5);
    let c = pt(1, 1);
    assert_eq!(a.distance_squared_to(&c), 2);
    assert_eq!(a.distance_to(&c), 1);
    assert_eq!(pt(-7, 2).distance_squared_to(&pt(-7, 2)), 0);
}

#[test]
fn orientation_is_twice_the_signed_area() {
    assert_eq!(orientation(&pt(0, 0), &pt(4, 0), &pt(0, 3)), 12);
    assert_eq!(orientation(&pt(0, 0), &pt(0, 3), &pt(4, 0)), -12);
    assert_eq!(orientation(&pt(0, 0), &pt(1, 1), &pt(2, 2)), 0);
    assert_eq!(
        orientation(&pt(-1_000_000, -1_000_000), &pt(1_000_000, -1_000_000), &pt(0, 1_000_000)),
        4_000_000_000_000
    );
}

#[test]
fn centroid_rounds_toward_zero() {
    assert_eq!(centroid(&pt(0, 0), &pt(3, 0), &pt(0, 3)), pt(1, 1));
    assert_eq!(centroid(&pt(0, 0), &pt(1, 0), &pt(1, 1)), pt(0, 0));
    assert_eq!(centroid(&pt(0, 0), &pt(-1, 0), &pt(-1, -4)), pt(0, -1));
}

#[test]
fn points_within_checks_every_coordinate() {
    assert!(points_within(&vec![pt(5, -5), pt(0, 0)], 5));
    assert!(!points_within(&vec![pt(5, -5), pt(0, 6)], 5));
    assert!(points_within(&vec![], 0));
    assert!(pt(3, -3).is_within(3));
    assert!(!pt(4, 0).is_within(3));
}

#[test]
fn ray_crossing_follows_the_even_odd_rule() {
    // the vertical edge at x = 4 is to the right of the point
    assert!(edge_crossed(&pt(4, 0), &pt(4, 4), &pt(1, 2)));
    assert!(edge_crossed(&pt(4, 4), &pt(4, 0), &pt(1, 2)));
    // now it is to the left
    assert!(!edge_crossed(&pt(0, 0), &pt(0, 4), &pt(1, 2)));
    // an edge that does not straddle the height of the point
    assert!(!edge_crossed(&pt(4, 3), &pt(4, 7), &pt(1, 2)));
    // a point on the edge itself is not strictly to its left
    assert!(!edge_crossed(&pt(4, 0), &pt(4, 4), &pt(4, 2)));
}

#[test]
fn point_in_polygon_on_a_square_and_an_l_shape() {
    let square = vec![pt(0, 0), pt(4, 0), pt(4, 4), pt(0, 4)];
    assert!(point_in_slice(&square, &pt(2, 2)));
    assert!(point_in_slice(&square, &pt(0, 0)));
    assert!(!point_in_slice(&square, &pt(4, 4)));
    assert!(!point_in_slice(&square, &pt(5, 2)));
    assert!(!point_in_slice(&square, &pt(-1, 2)));
    assert!(!point_in_slice(&square, &pt(2, 7)));
    let ell = vec![pt(0, 0), pt(6, 0), pt(6, 2), pt(2, 2), pt(2, 6), pt(0, 6)];
    assert!(point_in_slice(&ell, &pt(1, 5)));
    assert!(point_in_slice(&ell, &pt(5, 1)));
    assert!(!point_in_slice(&ell, &pt(4, 4)));
    assert!(!point_in_slice(&[], &pt(0, 0)));
}

#[test]
fn point_in_polygon_reads_only_the_leading_points() {
    let mut points = vec![pt(0, 0), pt(4, 0), pt(4, 4), pt(0, 4)];
    points.push(pt(100, 100));
    points.push(pt(2, 2));
    assert!(point_in_polygon(&points, 4, &pt(2, 2)));
    assert!(!point_in_polygon(&points, 4, &pt(50, 50)));
    assert!(!point_in_polygon(&points, 0, &pt(2, 2)));
}

#[test]
fn piece_count_is_the_length_ratio_rounded_up() {
    // length 10, target 3: four pieces
    assert_eq!(count_pieces(100, 3), 4);
    // length 10, target 5: exactly two
    assert_eq!(count_pieces(100, 5), 2);
    // length sqrt(200) = 14.14..., target 7: three pieces
    assert_eq!(count_pieces(200, 7), 3);
    // length sqrt(2) = 1.41..., target 1: two pieces
    assert_eq!(count_pieces(2, 1), 2);
    // length 13, target 4: four pieces
    assert_eq!(count_pieces(169, 4), 4);
}

#[test]
fn step_points_round_toward_the_start() {
    let a = pt(0, 0);
    let b = pt(10, -10);
    assert_eq!(point_at_step(&a, &b, 1, 4), pt(2, -2));
    assert_eq!(point_at_step(&a, &b, 2, 4), pt(5, -5));
    assert_eq!(point_at_step(&a, &b, 3, 4), pt(7, -7));
    assert_eq!(point_at_step(&a, &b, 4, 4), pt(10, -10));
    assert_eq!(point_at_step(&b, &a, 1, 4), pt(8, -8));
}

#[test]
fn subdivision_cuts_long_edges_evenly() {
    let square = vec![pt(0, 0), pt(10, 0), pt(10, 10), pt(0, 10)];
    let samples = subdivide_boundary(&square, 5);
    assert_eq!(
        samples,
        vec![
            pt(0, 0),
            pt(5, 0),
            pt(10, 0),
            pt(10, 5),
            pt(10, 10),
            pt(5, 10),
            pt(0, 10),
            pt(0, 5)
        ]
    );
    // edges no longer than the target stay whole
    assert_eq!(subdivide_boundary(&square, 10), square);
    assert_eq!(subdivide_boundary(&square, u64::MAX), square);
    assert_eq!(subdivide_boundary(&[], 3), vec![]);
    let thirds = subdivide_boundary(&[pt(0, 0), pt(10, 0)], 3);
    assert_eq!(thirds, vec![pt(0, 0), pt(2, 0), pt(5, 0), pt(7, 0), pt(10, 0), pt(8, 0), pt(5, 0), pt(3, 0)]);
}

#[test]
fn points_are_found_by_their_coordinates() {
    let points = vec![pt(1, 2), pt(3, 4), pt(1, 2), pt(-5, 0)];
    assert_eq!(find_point(&points, &pt(1, 2)), Some(0));
    assert_eq!(find_point(&points, &pt(-5, 0)), Some(3));
    assert_eq!(find_point(&points, &pt(2, 1)), None);
    assert_eq!(find_point(&[], &pt(0, 0)), None);
    assert_eq!(pt(1, 2), pt(1, 2));
    assert_ne!(pt(1, 2), pt(2, 1));
}
