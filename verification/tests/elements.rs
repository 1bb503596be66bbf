use meshgen::elements::{Circumcircle, Edge, Quad, Triangle};
use meshgen::geometry::Point;

fn pt(x: i64, y: i64) -> Point {
    Point::new(x, y)
}

fn on_circle(circle: &Circumcircle, p: &Point) -> bool {
    let dx = circle.den * (p.x - circle.origin.x) as i128 - circle.num_x;
    let dy = circle.den * (p.y - circle.origin.y) as i128 - circle.num_y;
    dx * dx + dy * dy == circle.num_x * circle.num_x + circle.num_y * circle.num_y
}

#[test]
fn edge_is_canonical() {
    assert_eq!(Edge::new(5, 2).vertices, [2, 5]);
    assert_eq!(Edge::new(2, 5).vertices, [2, 5]);
    assert_eq!(Edge::new(3, 3).vertices, [3, 3]);
    assert!(Edge::new(5, 2).same_as(&Edge::new(2, 5)));
    assert!(!Edge::new(5, 2).same_as(&Edge::new(2, 4)));
}

#[test]
fn circumcircle_of_a_right_triangle() {
    let points = vec![pt(0, 0), pt(4, 0), pt(0, 4)];
    let t = Triangle::new([0, 1, 2], &points);
    assert_eq!(t.vertices, [0, 1, 2]);
    // centre (2, 2): numerators over the denominator 2 * 16
    assert_eq!(t.circumcircle.origin, pt(0, 0));
    assert_eq!(t.circumcircle.den, 32);
    assert_eq!(t.circumcircle.num_x, 64);
    assert_eq!(t.circumcircle.num_y, 64);
    assert!(!t.has_infinite_circumradius());
    assert!(t.contains_point_in_circumcircle(&pt(2, 2)));
    assert!(t.contains_point_in_circumcircle(&pt(3, 3)));
    assert!(!t.contains_point_in_circumcircle(&pt(4, 4)));
    assert!(!t.contains_point_in_circumcircle(&pt(5, 5)));
    assert!(!t.contains_point_in_circumcircle(&pt(-1, 2)));
}

#[test]
fn circumcircle_does_not_depend_on_the_winding() {
    let points = vec![pt(1, 1), pt(1, 7), pt(9, 1)];
    let clockwise = Triangle::new([0, 1, 2], &points);
    let counter = Triangle::new([0, 2, 1], &points);
    assert!(clockwise.jacobian(&points) < 0);
    assert!(counter.jacobian(&points) > 0);
    for p in [pt(5, 4), pt(2, 2), pt(9, 7), pt(10, 8), pt(0, 0), pt(5, -1), pt(5, 9)] {
        assert_eq!(
            clockwise.contains_point_in_circumcircle(&p),
            counter.contains_point_in_circumcircle(&p)
        );
    }
    assert!(clockwise.contains_point_in_circumcircle(&pt(5, 4)));
    assert!(!clockwise.contains_point_in_circumcircle(&pt(9, 7)));
    assert!(!clockwise.contains_point_in_circumcircle(&pt(10, 8)));
}

#[test]
fn corners_lie_on_their_own_circumcircle() {
    let points = vec![pt(-3, 7), pt(12, -5), pt(40, 33), pt(0, 0), pt(1, 0), pt(0, 1)];
    for vertices in [[0, 1, 2], [2, 1, 0], [3, 4, 5], [0, 3, 5], [1, 2, 4]] {
        let t = Triangle::new(vertices, &points);
        for v in vertices {
            assert!(on_circle(&t.circumcircle, &points[v]));
            assert!(!t.contains_point_in_circumcircle(&points[v]));
        }
    }
}

#[test]
fn collinear_corners_give_an_infinite_circumradius() {
    let points = vec![pt(0, 0), pt(5, 5), pt(9, 9)];
    let t = Triangle::new([0, 1, 2], &points);
    assert!(t.has_infinite_circumradius());
    assert_eq!(t.jacobian(&points), 0);
    assert_eq!(t.area(&points), 0);
    assert!(!t.is_properly_oriented(&points));
    for p in [pt(0, 0), pt(2, 2), pt(3, 1), pt(-100, 100), pt(1_000_000, -1_000_000)] {
        assert!(!t.contains_point_in_circumcircle(&p));
    }
}

#[test]
fn triangle_measures() {
    let points = vec![pt(0, 0), pt(4, 0), pt(0, 3)];
    let t = Triangle::new([0, 1, 2], &points);
    assert_eq!(t.jacobian(&points), 12);
    assert_eq!(t.area(&points), 12);
    assert!(t.is_properly_oriented(&points));
    let flipped = Triangle::new([0, 2, 1], &points);
    assert_eq!(flipped.jacobian(&points), -12);
    assert_eq!(flipped.area(&points), 12);
    assert!(!flipped.is_properly_oriented(&points));
}

#[test]
fn quad_measures_on_a_rectangle() {
    let points = vec![pt(0, 0), pt(4, 0), pt(4, 2), pt(0, 2)];
    let q = Quad::new([0, 1, 2, 3]);
    assert_eq!(q.vertices, [0, 1, 2, 3]);
    // area 8 cells, in half cells
    assert_eq!(q.area(&points), 16);
    // Jacobian 8 / 4 = 2 everywhere, in sixteenths
    assert_eq!(q.jacobian_at_center(&points), 32);
    assert_eq!(q.min_jacobian(&points), 32);
    assert!(q.is_properly_oriented(&points));
    let clockwise = Quad::new([0, 3, 2, 1]);
    assert_eq!(clockwise.area(&points), 16);
    assert_eq!(clockwise.jacobian_at_center(&points), -32);
    assert_eq!(clockwise.min_jacobian(&points), -32);
    assert!(!clockwise.is_properly_oriented(&points));
}

#[test]
fn quad_minimum_jacobian_is_below_the_centre_value() {
    // a trapezoid: the Jacobian varies along one axis
    let points = vec![pt(0, 0), pt(6, 0), pt(4, 4), pt(2, 4)];
    let q = Quad::new([0, 1, 2, 3]);
    // a = (8, 0), b = (0, 8), c = (-4, 0): centre 64, swing |a x c| + |c x b| = 0 + 32
    assert_eq!(q.jacobian_at_center(&points), 64);
    // 64 - 32 / sqrt(3) = 45.52..., rounded up
    assert_eq!(q.min_jacobian(&points), 46);
    assert!(q.is_properly_oriented(&points));
}

#[test]
fn quad_inverted_near_a_corner_is_rejected() {
    // positive at the centre, inverted near the corner that is pushed inward
    let points = vec![pt(0, 0), pt(10, 0), pt(3, 3), pt(0, 10)];
    let q = Quad::new([0, 1, 2, 3]);
    assert!(q.jacobian_at_center(&points) > 0);
    assert!(q.min_jacobian(&points) < 0);
    assert!(!q.is_properly_oriented(&points));
}

#[test]
fn quad_minimum_jacobian_keeps_the_sign_of_a_small_positive_value() {
    // centre 6, swing 10: the least Jacobian is 6 - 10 / sqrt(3) = 0.22...
    let points = vec![pt(0, 0), pt(1, 1), pt(3, 2), pt(1, 2)];
    let q = Quad::new([0, 1, 2, 3]);
    assert_eq!(q.jacobian_at_center(&points), 6);
    assert_eq!(q.min_jacobian(&points), 1);
    assert!(q.is_properly_oriented(&points));
}

#[test]
fn quad_minimum_jacobian_is_positive_exactly_for_proper_quads() {
    let shapes = [
        [pt(0, 0), pt(1, 1), pt(3, 2), pt(1, 2)],
        [pt(0, 0), pt(6, 0), pt(4, 4), pt(2, 4)],
        [pt(0, 0), pt(10, 0), pt(3, 3), pt(0, 10)],
        [pt(0, 0), pt(0, 2), pt(2, 2), pt(2, 0)],
        [pt(0, 0), pt(4, 0), pt(1, 1), pt(0, 4)],
        [pt(0, 0), pt(2, 0), pt(2, 0), pt(0, 2)],
    ];
    for shape in shapes.iter() {
        let points = shape.to_vec();
        let q = Quad::new([0, 1, 2, 3]);
        assert_eq!(q.min_jacobian(&points) > 0, q.is_properly_oriented(&points));
    }
}
