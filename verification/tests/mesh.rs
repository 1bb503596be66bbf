use meshgen::elements::{Quad, Triangle};
use meshgen::geometry::Point;
use meshgen::mesh::{Mesh, MeshError};

fn pt(x: i64, y: i64) -> Point {
    Point::new(x, y)
}

fn square() -> Vec<Point> {
    vec![pt(0, 0), pt(4, 0), pt(4, 4), pt(0, 4)]
}

fn two_triangles() -> Mesh {
    let points = square();
    let triangles = vec![Triangle::new([0, 1, 2], &points), Triangle::new([0, 2, 3], &points)];
    Mesh::new(points, triangles)
}

#[test]
fn mesh_keeps_indices_and_point_copies() {
    let mesh = two_triangles();
    assert_eq!(mesh.vertices, square());
    assert_eq!(mesh.triangle_indices, vec![[0, 1, 2], [0, 2, 3]]);
    assert_eq!(
        mesh.triangles,
        vec![vec![pt(0, 0), pt(4, 0), pt(4, 4)], vec![pt(0, 0), pt(4, 4), pt(0, 4)]]
    );
    assert!(mesh.quads.is_none());
    assert!(mesh.quad_indices.is_none());
}

#[test]
fn mesh_with_quads_keeps_both_element_lists() {
    let points = vec![pt(0, 0), pt(4, 0), pt(4, 4), pt(0, 4), pt(8, 0), pt(8, 4)];
    let triangles = vec![Triangle::new([0, 1, 2], &points)];
    let quads = vec![Quad::new([1, 4, 5, 2])];
    let mesh = Mesh::new_with_quads(points.clone(), triangles, quads);
    assert_eq!(mesh.triangle_indices, vec![[0, 1, 2]]);
    assert_eq!(mesh.quad_indices, Some(vec![[1, 4, 5, 2]]));
    assert_eq!(mesh.quads, Some(vec![vec![pt(4, 0), pt(8, 0), pt(8, 4), pt(4, 4)]]));
    assert_eq!(mesh.validate_jacobians(), Ok(()));
}

#[test]
fn validation_passes_a_well_oriented_mesh() {
    assert_eq!(two_triangles().validate_jacobians(), Ok(()));
}

#[test]
fn validation_names_the_first_inverted_triangle() {
    let points = square();
    let triangles = vec![
        Triangle::new([0, 1, 2], &points),
        Triangle::new([0, 3, 2], &points),
        Triangle::new([2, 1, 0], &points),
    ];
    let mesh = Mesh::new(points, triangles);
    assert_eq!(
        mesh.validate_jacobians(),
        Err(MeshError::NonPositiveTriangle { index: 1, jacobian: -16 })
    );
}

#[test]
fn validation_rejects_a_triangle_without_area() {
    let points = vec![pt(0, 0), pt(2, 2), pt(4, 4)];
    let triangles = vec![Triangle::new([0, 1, 2], &points)];
    let mesh = Mesh::new(points, triangles);
    assert_eq!(
        mesh.validate_jacobians(),
        Err(MeshError::NonPositiveTriangle { index: 0, jacobian: 0 })
    );
}

#[test]
fn validation_rejects_an_index_that_names_no_vertex() {
    let mut mesh = two_triangles();
    mesh.triangle_indices[1] = [0, 2, 4];
    assert_eq!(mesh.validate_jacobians(), Err(MeshError::IndexOutOfRange { element: 1 }));
    let mut quads = two_triangles();
    quads.quad_indices = Some(vec![[0, 1, 2, 3], [0, 1, 2, 9]]);
    assert_eq!(quads.validate_jacobians(), Err(MeshError::IndexOutOfRange { element: 1 }));
}

#[test]
fn validation_rejects_coordinates_out_of_range() {
    let mut mesh = two_triangles();
    mesh.vertices[2] = pt(41_000_001, 4);
    assert_eq!(mesh.validate_jacobians(), Err(MeshError::CoordinateOutOfRange));
    mesh.vertices[2] = pt(41_000_000, 4);
    assert_eq!(mesh.validate_jacobians(), Ok(()));
}

#[test]
fn validation_names_the_first_bad_quad_after_the_triangles() {
    let mut mesh = two_triangles();
    mesh.quad_indices = Some(vec![[0, 1, 2, 3], [0, 3, 2, 1]]);
    assert_eq!(
        mesh.validate_jacobians(),
        Err(MeshError::NonPositiveQuad { index: 1, min_jacobian: -64 })
    );
    mesh.triangle_indices[0] = [0, 2, 1];
    assert_eq!(
        mesh.validate_jacobians(),
        Err(MeshError::NonPositiveTriangle { index: 0, jacobian: -16 })
    );
}

#[test]
fn validation_gives_the_same_verdict_every_time() {
    let good = two_triangles();
    assert_eq!(good.validate_jacobians(), good.validate_jacobians());
    let points = square();
    let bad = Mesh::new(points.clone(), vec![Triangle::new([0, 2, 1], &points)]);
    let first = bad.validate_jacobians();
    assert!(first.is_err());
    assert_eq!(first, bad.validate_jacobians());
}

#[test]
fn a_valid_mesh_built_again_from_its_own_data_is_valid() {
    let mesh = two_triangles();
    assert_eq!(mesh.validate_jacobians(), Ok(()));
    let triangles: Vec<Triangle> =
        mesh.triangle_indices.iter().map(|&v| Triangle::new(v, &mesh.vertices)).collect();
    let rebuilt = Mesh::new(mesh.vertices.clone(), triangles);
    assert_eq!(rebuilt.validate_jacobians(), Ok(()));
    assert_eq!(rebuilt.triangle_indices, mesh.triangle_indices);
    assert_eq!(rebuilt.triangles, mesh.triangles);
}

#[test]
fn jacobian_statistics_are_in_sixteenths() {
    let points = vec![pt(0, 0), pt(4, 0), pt(4, 4), pt(0, 4), pt(1, 0)];
    let triangles = vec![
        Triangle::new([0, 1, 2], &points),
        Triangle::new([0, 2, 3], &points),
        Triangle::new([0, 4, 3], &points),
    ];
    let mesh = Mesh::new(points, triangles);
    // Jacobians 16, 16 and 4
    assert_eq!(mesh.get_jacobian_stats(), (64, 256, 192));
    let mut with_quad = mesh.clone();
    with_quad.quad_indices = Some(vec![[0, 3, 2, 1]]);
    // the quad adds -64: the sum is 512, the mean 128
    assert_eq!(with_quad.get_jacobian_stats(), (-64, 256, 128));
    let empty = Mesh::new(vec![], vec![]);
    assert_eq!(empty.get_jacobian_stats(), (i128::MAX, i128::MIN, 0));
}

#[test]
fn least_jacobian_is_positive_exactly_for_valid_meshes() {
    // a quad whose least Jacobian is 6 - 10 / sqrt(3) = 0.22... sixteenths
    let points = vec![pt(0, 0), pt(1, 1), pt(3, 2), pt(1, 2)];
    let thin = Mesh::new_with_quads(points.clone(), vec![], vec![Quad::new([0, 1, 2, 3])]);
    assert_eq!(thin.validate_jacobians(), Ok(()));
    assert_eq!(thin.get_jacobian_stats(), (1, 1, 1));
    assert_eq!(thin.quads, Some(vec![points.clone()]));
    let good = two_triangles();
    assert_eq!(good.validate_jacobians(), Ok(()));
    assert!(good.get_jacobian_stats().0 > 0);
    let flat_points = vec![pt(0, 0), pt(2, 2), pt(4, 4)];
    let flat = Mesh::new(flat_points.clone(), vec![Triangle::new([0, 1, 2], &flat_points)]);
    assert!(flat.validate_jacobians().is_err());
    assert_eq!(flat.get_jacobian_stats().0, 0);
    let folded = Mesh::new_with_quads(square(), vec![], vec![Quad::new([0, 3, 2, 1])]);
    assert!(folded.validate_jacobians().is_err());
    assert!(folded.get_jacobian_stats().0 <= 0);
    let empty = Mesh::new(vec![], vec![]);
    assert_eq!(empty.validate_jacobians(), Ok(()));
    assert!(empty.get_jacobian_stats().0 > 0);
}
