use std::collections::HashSet;

use meshgen::geometry::{divide_toward_zero, Algorithm, Point, Triangle};
use meshgen::mesher::{find_worst_triangle, MeshCore, Mesher};

fn pt(x: i64, y: i64) -> Point {
    Point::new(x, y)
}

fn first(n: usize) -> HashSet<usize> {
    (0..n).collect()
}

fn square() -> Vec<Point> {
    vec![pt(0, 0), pt(10, 0), pt(10, 10), pt(0, 10)]
}

fn doubled_area(t: &Triangle, points: &[Point]) -> i64 {
    let [a, b, c] = t.get_points(points);
    ((b.x - a.x) * (c.y - a.y) - (c.x - a.x) * (b.y - a.y)).abs()
}

#[test]
fn algorithm_names_fall_back_to_delaunay() {
    assert_eq!(Algorithm::from_name("paving"), Algorithm::Paving);
    assert_eq!(Algorithm::from_name("annealing"), Algorithm::Annealing);
    assert_eq!(Algorithm::from_name("delaunay"), Algorithm::Delaunay);
    assert_eq!(Algorithm::from_name("Paving"), Algorithm::Delaunay);
    assert_eq!(Algorithm::from_name(""), Algorithm::Delaunay);
}

#[test]
fn division_rounds_toward_zero_for_either_sign() {
    assert_eq!(divide_toward_zero(7, 2), 3);
    assert_eq!(divide_toward_zero(-7, 2), -3);
    assert_eq!(divide_toward_zero(7, -2), -3);
    assert_eq!(divide_toward_zero(-7, -2), 3);
    assert_eq!(divide_toward_zero(0, -5), 0);
}

#[test]
fn bare_triangle_has_a_centre_and_a_circumcentre() {
    let points = vec![pt(0, 0), pt(10, 0), pt(0, 10), pt(4, 4), pt(8, 8), pt(3, 0), pt(1_000_000, 1)];
    let t = Triangle::new(0, 1, 2);
    assert_eq!(t.indices, [0, 1, 2]);
    assert_eq!(t.get_points(&points), [pt(0, 0), pt(10, 0), pt(0, 10)]);
    assert_eq!(t.center(&points), pt(3, 3));
    assert_eq!(t.circumcenter(&points), Some(pt(5, 5)));
    assert_eq!(Triangle::new(2, 1, 0).circumcenter(&points), Some(pt(5, 5)));
    // collinear corners
    assert_eq!(Triangle::new(0, 3, 4).circumcenter(&points), None);
    // the centre (1.5, 2.5) is rounded toward the first corner
    assert_eq!(Triangle::new(0, 5, 3).circumcenter(&points), Some(pt(1, 2)));
    assert_eq!(Triangle::new(3, 0, 5).circumcenter(&points), Some(pt(2, 3)));
    // a sliver whose centre lies far outside the range
    assert_eq!(Triangle::new(0, 1, 6).circumcenter(&points), None);
}

#[test]
fn polygon_is_read_from_coordinate_pairs() {
    let mut mesher = MeshCore::new();
    mesher.add_polygon(&[0, 0, 10, 0, 10, 10, 0, 10, 99]);
    assert_eq!(mesher.points, square());
    assert_eq!(mesher.boundary_points, first(4));
    assert!(mesher.triangles.is_empty());
    mesher.add_polygon_from_points(&[pt(1, 2), pt(3, 4)]);
    assert_eq!(mesher.points, vec![pt(1, 2), pt(3, 4)]);
    assert_eq!(mesher.boundary_points, first(2));
    mesher.clear();
    assert!(mesher.points.is_empty());
    assert_eq!(mesher.boundary_points, first(0));
}

#[test]
fn mesh_generation_refuses_what_it_cannot_mesh() {
    let mut mesher = MeshCore::new();
    mesher.add_polygon_from_points(&[pt(0, 0), pt(10, 0)]);
    assert!(!mesher.generate_mesh(5));
    assert_eq!(mesher.points, vec![pt(0, 0), pt(10, 0)]);
    mesher.add_polygon_from_points(&square());
    assert!(!mesher.generate_mesh(0));
    assert_eq!(mesher.points, square());
    mesher.add_polygon_from_points(&[pt(0, 0), pt(2_000_000, 0), pt(0, 10)]);
    assert!(!mesher.generate_mesh(5));
    assert!(!mesher.is_usable());
}

#[test]
fn mesh_generation_densifies_fills_and_triangulates() {
    let mut mesher = MeshCore::new();
    mesher.add_polygon_from_points(&square());
    assert!(mesher.generate_mesh(5));
    assert_eq!(
        mesher.points,
        vec![
            pt(0, 0),
            pt(5, 0),
            pt(10, 0),
            pt(10, 5),
            pt(10, 10),
            pt(5, 10),
            pt(0, 10),
            pt(0, 5),
            // the lattice, column by column
            pt(0, 0),
            pt(0, 5),
            pt(5, 0),
            pt(5, 5),
        ]
    );
    assert_eq!(mesher.boundary_points, first(8));
    assert!(mesher.is_usable());
    assert_eq!(mesher.get_point_count(), 12);
    assert_eq!(mesher.get_triangle_count(), mesher.triangles.len());
    assert_eq!(mesher.triangles.len(), 8);
    let mut area = 0;
    for t in &mesher.triangles {
        for &i in &t.indices {
            assert!(i < 12);
        }
        assert!(doubled_area(t, &mesher.points) > 0);
        area += doubled_area(t, &mesher.points);
    }
    assert_eq!(area, 200);
}

#[test]
fn triangulation_keeps_triangles_inside_the_polygon_only() {
    // a notched square: the hull triangle over the notch is dropped
    let polygon = vec![pt(0, 0), pt(12, 0), pt(12, 12), pt(6, 3), pt(0, 12)];
    let mut mesher = MeshCore::new();
    mesher.add_polygon_from_points(&polygon);
    mesher.triangulate(&polygon);
    let area: i64 = mesher.triangles.iter().map(|t| doubled_area(t, &polygon)).sum();
    assert_eq!(area, 2 * 144 - 12 * 9);
    let mut two = MeshCore::new();
    two.add_polygon_from_points(&[pt(0, 0), pt(5, 5)]);
    two.triangulate(&polygon);
    assert!(two.triangles.is_empty());
}

#[test]
fn smoothing_moves_interior_points_to_the_mean_of_their_neighbours() {
    let mut mesher = MeshCore::new();
    mesher.points = vec![pt(0, 0), pt(10, 0), pt(10, 10), pt(0, 10), pt(4, 3)];
    mesher.boundary_points = first(4);
    mesher.triangles = vec![
        Triangle::new(0, 1, 4),
        Triangle::new(1, 2, 4),
        Triangle::new(2, 3, 4),
        Triangle::new(3, 0, 4),
    ];
    assert!(mesher.smooth_once());
    assert_eq!(mesher.points, vec![pt(0, 0), pt(10, 0), pt(10, 10), pt(0, 10), pt(5, 5)]);
    assert_eq!(mesher.triangles.len(), 4);
    assert!(mesher.smooth_mesh(3));
    assert_eq!(mesher.points, vec![pt(0, 0), pt(10, 0), pt(10, 10), pt(0, 10), pt(5, 5)]);
    assert_eq!(mesher.triangles.len(), 4);
    // nothing but boundary points: nothing moves
    let mut fixed = MeshCore::new();
    fixed.add_polygon_from_points(&square());
    fixed.triangulate(&square());
    assert!(!fixed.smooth_once());
    assert!(fixed.smooth_mesh(5));
    assert_eq!(fixed.points, square());
    assert_eq!(fixed.triangles.len(), 2);
}

#[test]
fn smoothing_rounds_the_mean_toward_zero() {
    let mut mesher = MeshCore::new();
    mesher.points = vec![pt(0, 0), pt(-7, 0), pt(0, -7), pt(1, 1)];
    mesher.boundary_points = first(3);
    mesher.triangles = vec![Triangle::new(0, 1, 3), Triangle::new(0, 3, 2)];
    assert!(mesher.smooth_once());
    // the neighbours of point 3: (0,0), (-7,0), (0,-7), (0,0)
    assert_eq!(mesher.points[3], pt(-1, -1));
}

#[test]
fn smoothing_leaves_an_unusable_state_alone() {
    let mut mesher = MeshCore::new();
    mesher.points = vec![pt(0, 0), pt(10, 0), pt(0, 10)];
    mesher.boundary_points = first(1);
    mesher.triangles = vec![Triangle::new(0, 1, 7)];
    assert!(!mesher.is_usable());
    assert!(mesher.smooth_mesh(3));
    assert_eq!(mesher.points, vec![pt(0, 0), pt(10, 0), pt(0, 10)]);
    assert_eq!(mesher.triangles[0].indices, [0, 1, 7]);
}

#[test]
fn refinement_adds_the_circumcentre_of_the_worst_triangle() {
    let mut mesher = MeshCore::new();
    mesher.add_polygon_from_points(&square());
    mesher.triangulate(&square());
    assert_eq!(mesher.triangles.len(), 2);
    assert!(!mesher.refine_at(2));
    assert!(mesher.refine_at(0));
    assert_eq!(mesher.points, vec![pt(0, 0), pt(10, 0), pt(10, 10), pt(0, 10), pt(5, 5)]);
    assert_eq!(mesher.triangles.len(), 4);
    assert_eq!(mesher.boundary_points, first(4));
}

#[test]
fn worst_triangle_is_the_first_with_the_extreme_measure() {
    let angles = [30_000_000, 10_000_000, 25_000_000, 10_000_000];
    assert_eq!(find_worst_triangle("angle", 20_000_000, &angles), Some(1));
    assert_eq!(find_worst_triangle("angle", 26_000_000, &angles), Some(1));
    assert_eq!(find_worst_triangle("angle", 10_000_000, &angles), None);
    assert_eq!(find_worst_triangle("angle", 500_000_000, &[190_000_000, 180_000_000]), None);
    let aspects = [1_000_000, 3_000_000, 5_000_000, 5_000_000, i64::MAX];
    assert_eq!(find_worst_triangle("aspect", 2_000_000, &aspects[..4]), Some(2));
    assert_eq!(find_worst_triangle("aspect", 2_000_000, &aspects), Some(4));
    assert_eq!(find_worst_triangle("aspect", 5_000_000, &aspects[..4]), None);
    assert_eq!(find_worst_triangle("aspect", -5, &[0, -1]), None);
    assert_eq!(find_worst_triangle("area", 2_000_000, &aspects), None);
    assert_eq!(find_worst_triangle("angle", 2_000_000, &[]), None);
}

#[test]
fn average_quality_is_the_mean_of_the_measures() {
    let mut mesher = MeshCore::new();
    mesher.add_polygon_from_points(&square());
    assert_eq!(mesher.get_average_quality("angle", &[10, 21]), 0);
    mesher.triangulate(&square());
    assert_eq!(mesher.get_average_quality("angle", &[10, 21]), 15);
    assert_eq!(mesher.get_average_quality("aspect", &[-10, -21]), -15);
    assert_eq!(mesher.get_average_quality("aspect", &[i64::MAX, i64::MAX]), i64::MAX);
    assert_eq!(mesher.get_average_quality("area", &[10, 21]), 0);
    assert_eq!(mesher.get_average_quality("angle", &[]), 0);
    let width = |a: &Point, b: &Point, c: &Point| a.x.max(b.x).max(c.x) - a.x.min(b.x).min(c.x);
    assert_eq!(mesher.measure_triangles(&width), vec![10, 10]);
}

#[test]
fn refinement_ends_when_no_triangle_is_bad() {
    let mut mesher = MeshCore::new();
    mesher.add_polygon_from_points(&square());
    mesher.triangulate(&square());
    let fine = |_: &Point, _: &Point, _: &Point| 60_000_000i64;
    assert_eq!(mesher.refine_mesh("angle", 20_000_000, 10, &fine), 0);
    assert_eq!(mesher.points, square());
    let poor = |_: &Point, _: &Point, _: &Point| 5_000_000i64;
    assert_eq!(mesher.refine_mesh("area", 20_000_000, 10, &poor), 0);
    assert_eq!(mesher.refine_mesh("angle", 20_000_000, 0, &poor), 0);
    assert_eq!(mesher.refine_mesh("angle", 20_000_000, 1, &poor), 1);
    assert_eq!(mesher.points.len(), 5);
    assert_eq!(mesher.points[4], pt(5, 5));
    assert_eq!(mesher.triangles.len(), 4);
    let added = mesher.refine_mesh("angle", 20_000_000, 3, &poor);
    assert!(added <= 3);
    assert_eq!(mesher.points.len(), 5 + added);
    assert_eq!(&mesher.points[..4], &square()[..]);
}

#[test]
fn refinement_stops_at_a_circumcentre_outside_the_polygon() {
    // an obtuse triangle: its circumcentre lies outside
    let polygon = vec![pt(0, 0), pt(20, 0), pt(10, 2)];
    let mut mesher = MeshCore::new();
    mesher.add_polygon_from_points(&polygon);
    mesher.triangulate(&polygon);
    assert_eq!(mesher.triangles.len(), 1);
    assert!(!mesher.refine_at(0));
    assert_eq!(mesher.points, polygon);
}

#[test]
fn drawing_lists_are_flat_coordinates() {
    let mut mesher = Mesher::new();
    mesher.points = vec![pt(0, 0), pt(10, 0), pt(0, 10), pt(7, 7)];
    mesher.boundary_points = first(3);
    mesher.triangles = vec![Triangle::new(0, 1, 2), Triangle::new(1, 9, 3)];
    assert_eq!(mesher.get_triangles_for_drawing(), vec![0, 0, 10, 0, 0, 10, 10, 0, 7, 7]);
    assert_eq!(mesher.get_boundary_points_for_drawing(), vec![0, 0, 10, 0, 0, 10]);
    mesher.boundary_points = first(6);
    assert_eq!(mesher.get_boundary_points_for_drawing(), vec![0, 0, 10, 0, 0, 10, 7, 7]);
}

#[test]
fn flat_index_list_is_filtered_by_the_centroids() {
    let polygon = vec![pt(0, 0), pt(12, 0), pt(12, 12), pt(6, 3), pt(0, 12)];
    let mut mesher = MeshCore::new();
    mesher.add_polygon_from_points(&polygon);
    mesher.triangles = vec![Triangle::new(4, 3, 2)];
    // the third triangle lies over the notch; the last two indices make no triangle
    mesher.keep_triangles_inside(&[0, 1, 3, 1, 2, 3, 2, 4, 3, 0, 3, 4, 1, 2], &polygon);
    let kept: Vec<[usize; 3]> = mesher.triangles.iter().map(|t| t.indices).collect();
    assert_eq!(kept, vec![[0, 1, 3], [1, 2, 3], [0, 3, 4]]);
    assert_eq!(mesher.points, polygon);
    mesher.keep_triangles_inside(&[0, 1], &polygon);
    assert!(mesher.triangles.is_empty());
}

#[test]
fn a_boundary_set_that_does_not_lead_the_points_is_unusable() {
    let mut mesher = MeshCore::new();
    mesher.points = vec![pt(0, 0), pt(10, 0), pt(0, 10), pt(3, 3)];
    mesher.triangles = vec![Triangle::new(0, 1, 2)];
    assert!(mesher.is_usable());
    mesher.boundary_points = first(3);
    assert!(mesher.is_usable());
    mesher.boundary_points = [0, 1, 3].into_iter().collect();
    assert!(!mesher.is_usable());
    assert!(mesher.smooth_mesh(2));
    assert_eq!(mesher.points, vec![pt(0, 0), pt(10, 0), pt(0, 10), pt(3, 3)]);
    // drawn in the order of the points, whatever the set holds
    assert_eq!(mesher.get_boundary_points_for_drawing(), vec![0, 0, 10, 0, 3, 3]);
    mesher.boundary_points = first(5);
    assert!(!mesher.is_usable());
    mesher.clear();
    assert!(mesher.boundary_points.is_empty());
    assert!(mesher.is_usable());
}
