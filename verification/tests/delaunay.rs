use meshgen::delaunay::{
    generate_interior_lattice, triangulate_points, DelaunayTriangulator,
};
use meshgen::elements::Triangle;
use meshgen::geometry::Point;

fn pt(x: i64, y: i64) -> Point {
    Point::new(x, y)
}

fn scattered() -> Vec<Point> {
    vec![
        pt(0, 0),
        pt(40, 3),
        pt(37, 41),
        pt(-5, 30),
        pt(17, 12),
        pt(22, 29),
        pt(8, 20),
        pt(30, 18),
        pt(12, 35),
        pt(25, 5),
    ]
}

fn sorted(mut v: [usize; 3]) -> [usize; 3] {
    v.sort();
    v
}

#[test]
fn single_triangle_yields_one_element() {
    let points = vec![pt(0, 0), pt(2, 0), pt(1, 2)];
    let mut triangulator = DelaunayTriangulator::new(points.clone());
    let mesh = triangulator.triangulate().unwrap();
    assert_eq!(mesh.vertices.len(), 3);
    assert_eq!(mesh.vertices, points);
    assert_eq!(mesh.triangle_indices, vec![[0, 1, 2]]);
    assert_eq!(mesh.triangles, vec![points.clone()]);
    let t = Triangle::new(mesh.triangle_indices[0], &mesh.vertices);
    assert!(t.jacobian(&mesh.vertices) > 0);
    assert_eq!(t.jacobian(&mesh.vertices), 4);
}

#[test]
fn bounds_are_the_extreme_coordinates() {
    assert_eq!(DelaunayTriangulator::calculate_bounds(&scattered()), (-5, 40, 0, 41));
    assert_eq!(DelaunayTriangulator::calculate_bounds(&[pt(7, -9)]), (7, 7, -9, -9));
    assert_eq!(DelaunayTriangulator::calculate_bounds(&[]), (0, 0, 0, 0));
}

#[test]
fn bootstrap_triangle_is_appended_and_wound_counter_clockwise() {
    let points = vec![pt(0, 0), pt(10, 0), pt(10, 4)];
    let triangulator = DelaunayTriangulator::new(points.clone());
    // bounds (0, 10, 0, 4): the larger side is 10, the midpoint (5, 2)
    assert_eq!(
        triangulator.points,
        vec![pt(0, 0), pt(10, 0), pt(10, 4), pt(-195, -8), pt(5, 202), pt(205, -8)]
    );
    assert_eq!(triangulator.super_triangle_indices, [5, 4, 3]);
    assert_eq!(triangulator.triangles.len(), 1);
    assert_eq!(triangulator.triangles[0].vertices, [5, 4, 3]);
    assert!(triangulator.triangles[0].jacobian(&triangulator.points) > 0);
}

#[test]
fn first_insertion_fans_out_from_the_point() {
    let mut triangulator = DelaunayTriangulator::new(vec![pt(0, 0), pt(10, 0), pt(10, 4)]);
    triangulator.bowyer_watson_add_point(0).unwrap();
    let corners: Vec<[usize; 3]> = triangulator.triangles.iter().map(|t| t.vertices).collect();
    // the sides of the bootstrap triangle [5, 4, 3] in order, each joined to point 0
    assert_eq!(corners, vec![[5, 4, 0], [4, 3, 0], [3, 5, 0]]);
    for t in &triangulator.triangles {
        assert!(t.jacobian(&triangulator.points) > 0);
    }
}

#[test]
fn inserting_a_point_twice_changes_nothing() {
    let mut points = scattered();
    points.push(pt(17, 12));
    let mut triangulator = DelaunayTriangulator::new(points);
    for i in 0..10 {
        triangulator.add_point(i).unwrap();
    }
    let before: Vec<[usize; 3]> = triangulator.triangles.iter().map(|t| t.vertices).collect();
    triangulator.add_point(10).unwrap();
    let after: Vec<[usize; 3]> = triangulator.triangles.iter().map(|t| t.vertices).collect();
    assert_eq!(before, after);
}

#[test]
fn triangulation_keeps_every_vertex_and_no_bootstrap_point() {
    let points = scattered();
    let mesh = triangulate_points(points.clone());
    assert_eq!(mesh.vertices.len(), points.len());
    assert_eq!(mesh.vertices, points);
    for t in &mesh.triangle_indices {
        for &v in t {
            assert!(v < points.len());
        }
    }
    assert!(mesh.quads.is_none());
    assert!(mesh.quad_indices.is_none());
    assert_eq!(mesh.triangles.len(), mesh.triangle_indices.len());
    for (copy, t) in mesh.triangles.iter().zip(&mesh.triangle_indices) {
        assert_eq!(copy, &vec![points[t[0]], points[t[1]], points[t[2]]]);
    }
}

#[test]
fn triangulation_has_positive_triangles_and_empty_circumcircles() {
    let points = scattered();
    let mesh = triangulate_points(points.clone());
    assert!(mesh.triangle_indices.len() >= 8);
    for &vertices in &mesh.triangle_indices {
        let t = Triangle::new(vertices, &points);
        assert!(t.jacobian(&points) > 0);
        for p in &points {
            assert!(!t.contains_point_in_circumcircle(p));
        }
    }
    assert!(mesh.validate_jacobians().is_ok());
}

#[test]
fn triangulation_of_a_square_has_two_triangles() {
    let points = vec![pt(0, 0), pt(4, 0), pt(4, 3), pt(0, 3)];
    let mesh = triangulate_points(points.clone());
    assert_eq!(mesh.triangle_indices.len(), 2);
    let mut area = 0;
    for &vertices in &mesh.triangle_indices {
        let t = Triangle::new(vertices, &points);
        assert!(t.jacobian(&points) > 0);
        area += t.area(&points);
    }
    assert_eq!(area, 24);
}

#[test]
fn collinear_input_does_not_crash() {
    let points = vec![pt(0, 0), pt(5, 0), pt(9, 0)];
    let mesh = triangulate_points(points.clone());
    assert_eq!(mesh.vertices, points);
    for &vertices in &mesh.triangle_indices {
        let t = Triangle::new(vertices, &points);
        assert!(t.has_infinite_circumradius());
        assert!(!t.contains_point_in_circumcircle(&pt(3, 1)));
    }
    let one = triangulate_points(vec![pt(3, 3)]);
    assert!(one.triangle_indices.is_empty());
    let none = triangulate_points(vec![]);
    assert!(none.vertices.is_empty());
    assert!(none.triangle_indices.is_empty());
}

#[test]
fn removing_the_bootstrap_triangle_drops_what_touches_it() {
    let mut triangulator = DelaunayTriangulator::new(vec![pt(0, 0), pt(10, 0), pt(5, 8)]);
    for i in 0..3 {
        triangulator.bowyer_watson_add_point(i).unwrap();
    }
    assert!(triangulator.triangles.len() > 1);
    triangulator.remove_super_triangle();
    assert_eq!(triangulator.triangles.len(), 1);
    assert_eq!(sorted(triangulator.triangles[0].vertices), [0, 1, 2]);
    assert_eq!(triangulator.points.len(), 6);
}

#[test]
fn filtering_drops_triangles_outside_a_notched_boundary() {
    // a square with a notch cut into its top side
    let boundary = vec![pt(0, 0), pt(12, 0), pt(12, 12), pt(8, 12), pt(6, 3), pt(4, 12), pt(0, 12)];
    let mut triangulator = DelaunayTriangulator::new(boundary.clone());
    let mesh = triangulator.triangulate().unwrap();
    let hull_area: u128 =
        mesh.triangle_indices.iter().map(|&v| Triangle::new(v, &boundary).area(&boundary)).sum();
    assert_eq!(hull_area, 2 * 144);
    triangulator.filter_outside_triangles(boundary.len());
    let inside_area: u128 = triangulator.triangles.iter().map(|t| t.area(&boundary)).sum();
    assert!(inside_area < hull_area);
    assert!(triangulator.triangles.len() < mesh.triangle_indices.len());
    assert!(!triangulator.triangles.is_empty());
    triangulator.filter_outside_triangles(0);
    assert!(triangulator.triangles.is_empty());
}

#[test]
fn interior_refinement_adds_centroids_until_triangles_are_small() {
    let boundary = vec![pt(0, 0), pt(60, 0), pt(60, 60), pt(0, 60)];
    let mut triangulator = DelaunayTriangulator::new(boundary.clone());
    triangulator.triangulate().unwrap();
    assert_eq!(triangulator.points.len(), 4);
    triangulator.refine_interior(1000, 25, 4).unwrap();
    assert!(triangulator.points.len() > 4);
    assert!(triangulator.points.len() <= 10000);
    assert_eq!(&triangulator.points[..4], &boundary[..]);
    for t in &triangulator.triangles {
        assert!(t.jacobian(&triangulator.points) >= 0);
        for &v in &t.vertices {
            assert!(v < triangulator.points.len());
        }
    }
    // a target that every triangle meets changes nothing
    let mut again = DelaunayTriangulator::new(boundary.clone());
    again.triangulate().unwrap();
    again.refine_interior(3600, 25, 4).unwrap();
    assert_eq!(again.points, boundary);
    assert_eq!(again.triangles.len(), 2);
}

#[test]
fn interior_refinement_adds_at_most_five_points_a_pass() {
    let boundary = vec![pt(0, 0), pt(1000, 0), pt(1000, 1000), pt(0, 1000)];
    let mut triangulator = DelaunayTriangulator::new(boundary);
    triangulator.triangulate().unwrap();
    triangulator.refine_interior(0, 25, 4).unwrap();
    // fifty passes of five points at most
    assert!(triangulator.points.len() <= 4 + 250);
    assert!(triangulator.points.len() > 4);
}

#[test]
fn hexagonal_grid_is_staggered_and_ends_with_the_boundary() {
    let boundary = vec![pt(0, 0), pt(10, 0), pt(10, 10), pt(0, 10)];
    // step 4: rows 3 apart (4 * 0.866 = 3.46), odd rows start 2 to the right
    let points = DelaunayTriangulator::generate_hexagonal_grid(&boundary, 4);
    assert_eq!(
        points,
        vec![
            pt(0, 0),
            pt(4, 0),
            pt(8, 0),
            pt(2, 3),
            pt(6, 3),
            pt(0, 6),
            pt(4, 6),
            pt(8, 6),
            pt(2, 9),
            pt(6, 9),
            // the boundary, its sides cut into three pieces each
            pt(0, 0),
            pt(3, 0),
            pt(6, 0),
            pt(10, 0),
            pt(10, 3),
            pt(10, 6),
            pt(10, 10),
            pt(7, 10),
            pt(4, 10),
            pt(0, 10),
            pt(0, 7),
            pt(0, 4),
        ]
    );
}

#[test]
fn interior_lattice_lies_strictly_inside_the_bounds() {
    let boundary = vec![pt(0, 0), pt(10, 0), pt(10, 10), pt(0, 10)];
    assert_eq!(
        generate_interior_lattice(&boundary, 4),
        vec![pt(4, 4), pt(8, 4), pt(4, 8), pt(8, 8)]
    );
    assert_eq!(generate_interior_lattice(&boundary, 5), vec![pt(5, 5)]);
    assert_eq!(generate_interior_lattice(&boundary, 10), vec![]);
    assert_eq!(generate_interior_lattice(&boundary, u64::MAX), vec![]);
}

#[test]
fn adaptive_triangulation_refines_large_triangles() {
    let boundary = vec![pt(0, 0), pt(100, 0), pt(100, 100), pt(0, 100)];
    let coarse = DelaunayTriangulator::generate_adaptive_triangulation(&boundary, 200, 0).unwrap();
    let fine = DelaunayTriangulator::generate_adaptive_triangulation(&boundary, 200, 5).unwrap();
    assert!(!coarse.is_empty());
    assert!(fine.len() > coarse.len());
}

fn scrambled(count: usize, range: i64) -> Vec<Point> {
    // a small linear congruential generator, so that the test is repeatable
    let mut state: u64 = 0x2545_f491_4f6c_dd1d;
    let mut next = move || {
        state = state.wrapping_mul(6364136223846793005).wrapping_add(1442695040888963407);
        ((state >> 33) % (2 * range as u64 + 1)) as i64 - range
    };
    (0..count).map(|_| pt(next(), next())).collect()
}

#[test]
fn triangulation_of_many_points_is_delaunay() {
    let points = scrambled(250, 1000);
    let mesh = triangulate_points(points.clone());
    assert_eq!(mesh.vertices, points);
    assert!(mesh.triangle_indices.len() > 250);
    for &vertices in &mesh.triangle_indices {
        let t = Triangle::new(vertices, &points);
        assert!(t.jacobian(&points) > 0);
        for p in &points {
            assert!(!t.contains_point_in_circumcircle(p));
        }
    }
    assert!(mesh.validate_jacobians().is_ok());
}

#[test]
fn triangulation_at_the_limits_of_the_range() {
    let mut points = scrambled(60, 1_000_000);
    points.extend([
        pt(-1_000_000, -1_000_000),
        pt(1_000_000, -1_000_000),
        pt(1_000_000, 1_000_000),
        pt(-1_000_000, 1_000_000),
    ]);
    let mesh = triangulate_points(points.clone());
    let area: u128 =
        mesh.triangle_indices.iter().map(|&v| Triangle::new(v, &points).area(&points)).sum();
    // the triangles lie in the square that the four corners span; a flat
    // triangle along its sides may be missing, as its circumcircle reaches
    // the bootstrap triangle
    assert!(area <= 2 * 2_000_000 * 2_000_000);
    assert!(area >= 2 * 1_990_000 * 2_000_000);
    for &vertices in &mesh.triangle_indices {
        let t = Triangle::new(vertices, &points);
        assert!(t.jacobian(&points) > 0);
        for p in &points {
            assert!(!t.contains_point_in_circumcircle(p));
        }
    }
}

#[test]
fn triangulation_of_a_lattice_with_many_cocircular_points() {
    let points: Vec<Point> = (0..8).flat_map(|y| (0..8).map(move |x| pt(10 * x, 10 * y))).collect();
    let mesh = triangulate_points(points.clone());
    let area: u128 =
        mesh.triangle_indices.iter().map(|&v| Triangle::new(v, &points).area(&points)).sum();
    assert_eq!(area, 2 * 70 * 70);
    assert_eq!(mesh.triangle_indices.len(), 2 * 7 * 7);
    assert!(mesh.validate_jacobians().is_ok());
}
