use meshgen::elements::Triangle;
use meshgen::generation::{
    filter_mesh_outside_boundary, generate_mesh, quality_threshold_for, refine_boundary_edges,
};
use meshgen::delaunay::triangulate_points;
use meshgen::geometry::{Algorithm, AnnealingOptions, Geometry, MeshRequest, Point};
use meshgen::mesh::MeshError;
use meshgen::paving::PavingMeshGenerator;

fn pt(x: i64, y: i64) -> Point {
    Point::new(x, y)
}

fn request(points: Vec<Point>, algorithm: Option<Algorithm>) -> MeshRequest {
    MeshRequest {
        geometry: Geometry { points, name: None },
        max_area: None,
        min_angle: None,
        algorithm,
        annealing_options: None,
    }
}

fn no_quality(_: &Point, _: &Point, _: &Point) -> u64 {
    0
}

fn never(_: i64, _: i64, _: u64) -> bool {
    false
}

#[test]
fn rectangle_with_constraints_is_refined_and_valid() {
    // the rectangle 4 by 3 at a hundred grid units to one, area 0.5, angle 25
    let mut r = request(vec![pt(0, 0), pt(400, 0), pt(400, 300), pt(0, 300)], Some(Algorithm::Delaunay));
    r.max_area = Some(10_000);
    r.min_angle = Some(25);
    let mesh = generate_mesh(r, &no_quality, &never).unwrap();
    assert!(!mesh.triangle_indices.is_empty());
    assert!(mesh.vertices.len() > 4);
    for &v in &mesh.triangle_indices {
        assert!(Triangle::new(v, &mesh.vertices).jacobian(&mesh.vertices) > 0);
    }
    assert_eq!(mesh.validate_jacobians(), Ok(()));
    let area: u128 =
        mesh.triangle_indices.iter().map(|&v| Triangle::new(v, &mesh.vertices).area(&mesh.vertices)).sum();
    assert_eq!(area, 2 * 400 * 300);
}

#[test]
fn triangle_without_constraints_is_returned_as_it_is() {
    let points = vec![pt(0, 0), pt(2, 0), pt(1, 2)];
    let mesh = generate_mesh(request(points.clone(), None), &no_quality, &never).unwrap();
    assert_eq!(mesh.vertices, points);
    assert_eq!(mesh.triangle_indices, vec![[0, 1, 2]]);
    assert_eq!(mesh.triangles, vec![points.clone()]);
    assert!(Triangle::new([0, 1, 2], &points).jacobian(&points) > 0);
}

#[test]
fn too_few_points_are_refused_before_any_work() {
    for algorithm in [None, Some(Algorithm::Delaunay), Some(Algorithm::Paving), Some(Algorithm::Annealing)] {
        let r = generate_mesh(request(vec![pt(0, 0), pt(1, 0)], algorithm), &no_quality, &never);
        assert_eq!(r.err(), Some(MeshError::TooFewPoints { needed: 3, found: 2 }));
    }
    let r = generate_mesh(
        request(vec![pt(0, 0), pt(9, 0), pt(0, 9)], Some(Algorithm::Paving)),
        &no_quality,
        &never,
    );
    assert_eq!(r.err(), Some(MeshError::TooFewPoints { needed: 4, found: 3 }));
}

#[test]
fn coordinates_out_of_range_are_refused() {
    let r = generate_mesh(
        request(vec![pt(0, 0), pt(1_000_001, 0), pt(0, 9)], None),
        &no_quality,
        &never,
    );
    assert_eq!(r.err(), Some(MeshError::CoordinateOutOfRange));
    // at the very limit the clockwise triangle comes back counter-clockwise
    let ok = generate_mesh(
        request(vec![pt(0, 0), pt(1_000_000, 0), pt(0, -1_000_000)], None),
        &no_quality,
        &never,
    )
    .unwrap();
    assert_eq!(ok.triangle_indices.len(), 1);
    assert_eq!(
        Triangle::new(ok.triangle_indices[0], &ok.vertices).jacobian(&ok.vertices),
        1_000_000_000_000
    );
}

#[test]
fn collinear_boundary_yields_no_triangle() {
    let mesh =
        generate_mesh(request(vec![pt(0, 0), pt(5, 0), pt(9, 0)], None), &no_quality, &never)
            .unwrap();
    assert!(mesh.triangle_indices.is_empty());
    assert_eq!(mesh.vertices.len(), 3);
}

#[test]
fn notched_boundary_keeps_only_triangles_inside() {
    let boundary = vec![pt(0, 0), pt(120, 0), pt(120, 120), pt(80, 120), pt(60, 30), pt(40, 120), pt(0, 120)];
    let mesh = generate_mesh(request(boundary.clone(), None), &no_quality, &never).unwrap();
    let area: u128 =
        mesh.triangle_indices.iter().map(|&v| Triangle::new(v, &mesh.vertices).area(&mesh.vertices)).sum();
    assert!(area < 2 * 120 * 120);
    let hull = triangulate_points(boundary.clone());
    let filtered = filter_mesh_outside_boundary(hull.clone(), &boundary).unwrap();
    assert_eq!(filtered.triangle_indices, mesh.triangle_indices);
    assert_eq!(filtered.triangles, mesh.triangles);
    assert!(filtered.triangle_indices.len() < hull.triangle_indices.len());
}

#[test]
fn annealing_strategy_returns_a_valid_mesh_around_the_refined_boundary() {
    let mut r = request(vec![pt(0, 0), pt(100, 0), pt(100, 100), pt(0, 100)], Some(Algorithm::Annealing));
    r.max_area = Some(800);
    r.annealing_options = Some(AnnealingOptions {
        temperature: Some(300_000),
        cooling_rate: Some(950),
        max_iterations: Some(60),
        quality_threshold: Some(i64::MAX),
        check_volume: None,
        check_aspect_ratio: None,
        target_aspect_ratio: None,
        volume_weight: None,
        aspect_ratio_weight: None,
        check_size_uniformity: None,
        size_uniformity_weight: None,
        target_area: None,
        min_area: None,
    });
    let always = |_: i64, _: i64, _: u64| true;
    match generate_mesh(r, &no_quality, &always) {
        Ok(mesh) => {
            assert_eq!(mesh.validate_jacobians(), Ok(()));
            assert_eq!(mesh.vertices.len(), 16 + 49);
            assert_eq!(&mesh.vertices[..4], &[pt(0, 0), pt(25, 0), pt(50, 0), pt(75, 0)]);
        },
        Err(e) => assert!(matches!(e, MeshError::NonPositiveTriangle { .. })),
    }
}

#[test]
fn paving_strategy_lays_a_fan_over_the_boundary() {
    let mut r = request(vec![pt(0, 0), pt(40, 0), pt(40, 40), pt(0, 40)], Some(Algorithm::Paving));
    // spacing 20: one lattice point, too few for a quad
    r.max_area = Some(1250);
    let mesh = generate_mesh(r, &no_quality, &never).unwrap();
    assert_eq!(mesh.vertices, vec![pt(0, 0), pt(40, 0), pt(40, 40), pt(0, 40), pt(20, 20)]);
    assert_eq!(mesh.triangle_indices, vec![[0, 1, 2], [0, 2, 3]]);
    assert_eq!(mesh.quad_indices, Some(vec![]));
    assert_eq!(mesh.quads, Some(vec![]));
    assert_eq!(mesh.validate_jacobians(), Ok(()));
}

#[test]
fn paving_strategy_reports_the_first_folded_quad() {
    let mut r = request(vec![pt(0, 0), pt(40, 0), pt(40, 40), pt(0, 40)], Some(Algorithm::Paving));
    // spacing 8: four lattice points a row, where five columns are counted
    r.max_area = Some(200);
    let e = generate_mesh(r, &no_quality, &never).err();
    assert_eq!(e, Some(MeshError::NonPositiveQuad { index: 2, min_jacobian: -187 }));
}

#[test]
fn paving_generator_keeps_the_lattice_behind_the_boundary() {
    let mut generator = PavingMeshGenerator::new(vec![pt(0, 0), pt(40, 0), pt(40, 40), pt(0, 40)]);
    assert!(generator.generate_mesh(200).is_err());
    assert_eq!(generator.points.len(), 4 + 16);
    assert_eq!(generator.points[4], pt(8, 8));
    assert_eq!(generator.points[19], pt(32, 32));
    assert_eq!(generator.quads[0].vertices, [4, 5, 10, 9]);
    assert_eq!(generator.quads[2].vertices, [6, 11, 12, 7]);
    assert_eq!(generator.triangles.len(), 2);
    let mut small = PavingMeshGenerator::new(vec![pt(0, 0), pt(40, 0), pt(0, 40)]);
    assert_eq!(small.generate_mesh(200).err(), Some(MeshError::TooFewPoints { needed: 4, found: 3 }));
}

#[test]
fn quality_threshold_is_the_angle_over_sixty_degrees() {
    assert_eq!(quality_threshold_for(20), 333_333);
    assert_eq!(quality_threshold_for(60), 1_000_000);
    assert_eq!(quality_threshold_for(0), 0);
    assert_eq!(quality_threshold_for(u64::MAX), i64::MAX);
}

#[test]
fn boundary_edges_are_refined_for_the_target_area() {
    let refined = refine_boundary_edges(vec![pt(0, 0), pt(30, 0), pt(0, 30)], 100).unwrap();
    // edge length 10: the legs in three pieces, the hypotenuse (42.4) in five
    assert_eq!(
        refined,
        vec![
            pt(0, 0),
            pt(10, 0),
            pt(20, 0),
            pt(30, 0),
            pt(24, 6),
            pt(18, 12),
            pt(12, 18),
            pt(6, 24),
            pt(0, 30),
            pt(0, 20),
            pt(0, 10)
        ]
    );
}

#[test]
fn paving_generator_with_too_few_points_changes_nothing() {
    let points = vec![pt(0, 0), pt(40, 0), pt(0, 40)];
    let mut small = PavingMeshGenerator::new(points.clone());
    small.triangles.push(Triangle::new([0, 1, 2], &points));
    small.quads.push(meshgen::elements::Quad::new([0, 1, 2, 0]));
    assert_eq!(small.generate_mesh(200).err(), Some(MeshError::TooFewPoints { needed: 4, found: 3 }));
    assert_eq!(small.points, points);
    assert_eq!(small.triangles.len(), 1);
    assert_eq!(small.triangles[0].vertices, [0, 1, 2]);
    assert_eq!(small.quads.len(), 1);
    assert_eq!(small.quads[0].vertices, [0, 1, 2, 0]);
}

#[test]
fn paving_generator_appends_to_the_elements_it_holds() {
    let boundary = vec![pt(0, 0), pt(40, 0), pt(40, 40), pt(0, 40)];
    let mut fresh = PavingMeshGenerator::new(boundary.clone());
    let alone = fresh.generate_mesh(1250).unwrap();
    assert_eq!(alone.triangle_indices, vec![[0, 1, 2], [0, 2, 3]]);
    let mut held = PavingMeshGenerator::new(boundary.clone());
    held.triangles.push(Triangle::new([1, 2, 3], &boundary));
    held.quads.push(meshgen::elements::Quad::new([0, 1, 2, 3]));
    let mesh = held.generate_mesh(1250).unwrap();
    assert_eq!(held.points, fresh.points);
    assert_eq!(mesh.vertices, held.points);
    assert_eq!(mesh.triangle_indices, vec![[1, 2, 3], [0, 1, 2], [0, 2, 3]]);
    assert_eq!(mesh.quad_indices, Some(vec![[0, 1, 2, 3]]));
    assert_eq!(mesh.quads, Some(vec![boundary.clone()]));
    assert_eq!(held.triangles.len(), 3);
    assert_eq!(held.quads.len(), 1);
    // paving again takes all five points for the boundary
    let before = held.points.clone();
    let _ = held.generate_mesh(1250);
    assert_eq!(&held.points[..5], &before[..]);
    let corners: Vec<[usize; 3]> = held.triangles.iter().map(|t| t.vertices).collect();
    assert_eq!(&corners[..3], &[[1, 2, 3], [0, 1, 2], [0, 2, 3]]);
    assert_eq!(corners.len(), 6);
    assert_eq!(&corners[3..], &[[0, 1, 2], [0, 2, 3], [0, 4, 3]]);
    assert_eq!(held.quads.len(), 1);
}

#[test]
fn annealing_strategy_returns_a_mesh_without_quads() {
    let mut r = request(vec![pt(0, 0), pt(40, 0), pt(40, 40), pt(0, 40)], Some(Algorithm::Annealing));
    r.max_area = Some(400);
    match generate_mesh(r, &no_quality, &never) {
        Ok(mesh) => {
            assert_eq!(mesh.quads, None);
            assert_eq!(mesh.quad_indices, None);
            assert_eq!(mesh.validate_jacobians(), Ok(()));
        },
        Err(e) => assert!(matches!(e, MeshError::NonPositiveTriangle { .. })),
    }
}

fn schedule(temperature: u64, max_iterations: u32, quality_threshold: Option<i64>) -> AnnealingOptions {
    AnnealingOptions {
        temperature: Some(temperature),
        cooling_rate: Some(950),
        max_iterations: Some(max_iterations),
        quality_threshold,
        check_volume: None,
        check_aspect_ratio: None,
        target_aspect_ratio: None,
        volume_weight: None,
        aspect_ratio_weight: None,
        check_size_uniformity: None,
        size_uniformity_weight: None,
        target_area: None,
        min_area: None,
    }
}

fn annealed_vertices_of(options: AnnealingOptions, min_angle: Option<u64>) -> Option<Vec<Point>> {
    let boundary = vec![pt(0, 0), pt(100, 0), pt(100, 100), pt(0, 100)];
    let mut r = request(boundary, Some(Algorithm::Annealing));
    r.max_area = Some(800);
    r.min_angle = min_angle;
    r.annealing_options = Some(options);
    let worth = |_: &Point, _: &Point, _: &Point| 400_000u64;
    let always = |_: i64, _: i64, _: u64| true;
    let mesh = generate_mesh(r, &worth, &always).ok()?;
    assert_eq!(mesh.triangle_indices, triangulate_points(mesh.vertices.clone()).triangle_indices);
    Some(mesh.vertices)
}

#[test]
fn annealing_strategy_anneals_on_the_schedule_of_the_request() {
    let lattice: Vec<Point> =
        (1..8).flat_map(|row| (1..8).map(move |col| pt(14 * col, 14 * row))).collect();
    // no step at all, a temperature that is too low, a threshold that is met at once
    let still = annealed_vertices_of(schedule(300_000, 0, Some(i64::MAX)), None).unwrap();
    assert_eq!(still.len(), 16 + 49);
    assert_eq!(&still[16..], &lattice[..]);
    let cold = annealed_vertices_of(schedule(100, 60, Some(i64::MAX)), None);
    assert_eq!(cold, Some(still.clone()));
    let content = annealed_vertices_of(schedule(300_000, 60, Some(399_999)), None);
    assert_eq!(content, Some(still.clone()));
    // the threshold of the minimum angle: 20 degrees ask for a third, 30 for a half
    let easy = annealed_vertices_of(schedule(300_000, 60, None), None);
    assert_eq!(easy, Some(still.clone()));
    if let Some(hard) = annealed_vertices_of(schedule(300_000, 60, None), Some(30)) {
        assert_eq!(&hard[..16], &still[..16]);
        assert_ne!(hard, still);
    }
}
