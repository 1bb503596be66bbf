use std::cell::Cell;

use meshgen::annealing::{
    cool, mean_valid_worth, radius_at, GeneralAnnealingOptimizer, GridAnnealingMeshGenerator,
};
use meshgen::sizing::{coarse_edge_length, lattice_spacing, target_edge_length};
use meshgen::delaunay::triangulate_points;
use meshgen::elements::Triangle;
use meshgen::geometry::{AnnealingOptions, Point};
use meshgen::mesh::Mesh;

fn pt(x: i64, y: i64) -> Point {
    Point::new(x, y)
}

fn square(side: i64) -> Vec<Point> {
    vec![pt(0, 0), pt(side, 0), pt(side, side), pt(0, side)]
}

fn no_options() -> AnnealingOptions {
    AnnealingOptions {
        temperature: None,
        cooling_rate: None,
        max_iterations: None,
        quality_threshold: None,
        check_volume: None,
        check_aspect_ratio: None,
        target_aspect_ratio: None,
        volume_weight: None,
        aspect_ratio_weight: None,
        check_size_uniformity: None,
        size_uniformity_weight: None,
        target_area: None,
        min_area: None,
    }
}

#[test]
fn cooling_multiplies_by_the_rate_in_thousandths() {
    assert_eq!(cool(1_000_000, 995), 995_000);
    assert_eq!(cool(1999, 500), 999);
    assert_eq!(cool(100, 0), 0);
    assert_eq!(cool(7, 1000), 7);
    assert_eq!(cool(u64::MAX, 2000), u64::MAX);
}

#[test]
fn displacement_radius_is_a_fraction_of_the_temperature() {
    // temperature 1000, a tenth of it
    assert_eq!(radius_at(1_000_000, 10), 100);
    // a twentieth
    assert_eq!(radius_at(1_000_000, 20), 50);
    assert_eq!(radius_at(9_999, 10), 0);
    assert_eq!(radius_at(u64::MAX, 10), 2_000_000);
}

#[test]
fn edge_length_is_the_side_of_the_equilateral_triangle() {
    // area 50 cells: side sqrt(4 * 50 / sqrt(3)) = 10.74...
    assert_eq!(target_edge_length(100), 10);
    // area 5000 cells: side 107.45...
    assert_eq!(target_edge_length(10_000), 107);
    assert_eq!(target_edge_length(0), 1);
    assert_eq!(target_edge_length(1), 1);
    assert_eq!(target_edge_length(u64::MAX), target_edge_length(8_000_000_000_000));
    assert_eq!(target_edge_length(8_000_000_000_000), 3_039_342);
}

#[test]
fn coarse_edge_is_twice_the_root_of_the_area() {
    // area 50 cells: 2 * sqrt(50) = 14.14...
    assert_eq!(coarse_edge_length(100), 14);
    assert_eq!(coarse_edge_length(200), 20);
    assert_eq!(coarse_edge_length(0), 1);
    assert_eq!(coarse_edge_length(u64::MAX), 4_000_000);
}

#[test]
fn lattice_spacing_is_a_fraction_of_the_root_of_the_area() {
    // area 100 cells, factor 0.7: 7
    assert_eq!(lattice_spacing(200, 49), 7);
    // factor 0.8: 8
    assert_eq!(lattice_spacing(200, 64), 8);
    // area 50 cells, factor 0.7: 4.94...
    assert_eq!(lattice_spacing(100, 49), 4);
    assert_eq!(lattice_spacing(0, 49), 1);
}

#[test]
fn generators_take_their_defaults() {
    let grid = GridAnnealingMeshGenerator::new(square(10), 333_333);
    assert_eq!(grid.temperature, 1_000_000);
    assert_eq!(grid.cooling_rate, 995);
    assert_eq!(grid.quality_threshold, 333_333);
    assert_eq!(grid.boundary_points, square(10));
    assert!(grid.internal_points.is_empty());
    let tuned = GridAnnealingMeshGenerator::with_options(square(10), 5000, 900, 1);
    assert_eq!((tuned.temperature, tuned.cooling_rate, tuned.quality_threshold), (5000, 900, 1));
    let general = GeneralAnnealingOptimizer::new();
    assert_eq!(general.temperature, 1_000_000);
    assert_eq!(general.cooling_rate, 995);
    assert_eq!(general.max_iterations, 10000);
    assert!(general.check_volume && general.check_aspect_ratio && general.check_size_uniformity);
    assert_eq!(general.target_aspect_ratio, 1730);
    assert_eq!(
        (general.volume_weight, general.aspect_ratio_weight, general.size_uniformity_weight),
        (300, 400, 300)
    );
    assert_eq!((general.target_area, general.min_area), (10, 1));
    assert!(general.target_area > general.min_area);
    assert!(general.boundary_points.is_empty());
}

#[test]
fn options_override_the_defaults_one_by_one() {
    let mut options = no_options();
    options.cooling_rate = Some(900);
    options.check_volume = Some(false);
    options.target_area = Some(50);
    let o = GeneralAnnealingOptimizer::from_options(&options);
    assert_eq!(o.temperature, 1_000_000);
    assert_eq!(o.cooling_rate, 900);
    assert!(!o.check_volume);
    assert!(o.check_aspect_ratio);
    assert_eq!(o.target_area, 50);
    assert_eq!(o.min_area, 1);
    let d = GeneralAnnealingOptimizer::from_options(&no_options());
    assert_eq!(d.max_iterations, 10000);
    assert_eq!(d.size_uniformity_weight, 300);
}

#[test]
fn grid_annealing_keeps_the_boundary_in_place() {
    let mut generator =
        GridAnnealingMeshGenerator::with_options(square(100), 1_000_000, 900, 2_000_000);
    let quality = |_: &Point, _: &Point, _: &Point| 1_000_000u64;
    let accept = |_: i64, _: i64, _: u64| false;
    let mesh = generator.generate_mesh_with_iterations(800, 50, &quality, &accept).unwrap();
    let boundary = generator.boundary_points.clone();
    // side 100, edge length 30: four pieces a side
    assert_eq!(boundary.len(), 16);
    assert_eq!(&boundary[..3], &[pt(0, 0), pt(25, 0), pt(50, 0)]);
    assert_eq!(&mesh.vertices[..boundary.len()], &boundary[..]);
    // spacing 14: the lattice 14, 28, ..., 98 in both directions
    assert_eq!(generator.internal_points.len(), 49);
    assert_eq!(mesh.vertices.len(), 16 + 49);
    assert!(mesh.validate_jacobians().is_ok());
    assert!(mesh.triangle_indices.len() > 2);
}

#[test]
fn grid_annealing_moves_interior_points_only_inside_the_boundary() {
    let mut generator =
        GridAnnealingMeshGenerator::with_options(square(100), 400_000, 990, i64::MAX);
    let quality = |_: &Point, _: &Point, _: &Point| 0u64;
    let accept = |_: i64, _: i64, _: u64| true;
    let _ = generator.generate_mesh_with_iterations(800, 200, &quality, &accept);
    assert_eq!(generator.boundary_points.len(), 16);
    assert_eq!(generator.internal_points.len(), 49);
    let lattice: Vec<Point> =
        (1..8).flat_map(|row| (1..8).map(move |col| pt(14 * col, 14 * row))).collect();
    assert_ne!(generator.internal_points, lattice);
    for p in &generator.internal_points {
        assert!(0 <= p.x && p.x <= 100 && 0 <= p.y && p.y <= 100);
    }
    let all: Vec<Point> =
        generator.boundary_points.iter().chain(&generator.internal_points).cloned().collect();
    let fresh = triangulate_points(all);
    let current: Vec<[usize; 3]> = generator.triangles.iter().map(|t| t.vertices).collect();
    assert_eq!(current, fresh.triangle_indices);
}

#[test]
fn grid_annealing_puts_rejected_moves_back() {
    let mut generator =
        GridAnnealingMeshGenerator::with_options(square(100), 400_000, 990, i64::MAX);
    let quality = |_: &Point, _: &Point, _: &Point| 5u64;
    let accept = |_: i64, _: i64, _: u64| false;
    let _ = generator.generate_mesh_with_iterations(800, 100, &quality, &accept);
    let lattice: Vec<Point> =
        (1..8).flat_map(|row| (1..8).map(move |col| pt(14 * col, 14 * row))).collect();
    assert_eq!(generator.internal_points, lattice);
}

#[test]
fn grid_annealing_stops_at_once_beyond_the_threshold() {
    let mut generator = GridAnnealingMeshGenerator::with_options(square(100), 400_000, 990, 4);
    let quality = |_: &Point, _: &Point, _: &Point| 5u64;
    let accept = |_: i64, _: i64, _: u64| true;
    let _ = generator.generate_mesh_with_iterations(800, 100, &quality, &accept);
    let lattice: Vec<Point> =
        (1..8).flat_map(|row| (1..8).map(move |col| pt(14 * col, 14 * row))).collect();
    assert_eq!(generator.internal_points, lattice);
}

#[test]
fn try_move_takes_only_positions_inside_the_boundary() {
    let mut generator = GridAnnealingMeshGenerator::new(square(100), 0);
    generator.internal_points = vec![pt(50, 50), pt(20, 20)];
    assert!(!generator.try_move(0, pt(150, 50)));
    assert_eq!(generator.internal_points, vec![pt(50, 50), pt(20, 20)]);
    assert!(generator.triangles.is_empty());
    assert!(generator.try_move(0, pt(60, 40)));
    assert_eq!(generator.internal_points, vec![pt(60, 40), pt(20, 20)]);
    assert!(!generator.triangles.is_empty());
    generator.put(0, pt(50, 50));
    assert_eq!(generator.internal_points, vec![pt(50, 50), pt(20, 20)]);
    assert!(!generator.try_move(1, pt(2_000_000, 20)));
}

#[test]
fn boundary_vertices_are_counted_or_estimated() {
    let mut optimizer = GeneralAnnealingOptimizer::new();
    let vertices = vec![pt(0, 0), pt(10, 0), pt(10, 10), pt(0, 10), pt(5, 5), pt(3, 3)];
    assert_eq!(optimizer.count_boundary_vertices(&vertices), 0);
    optimizer.set_boundary(square(10));
    assert_eq!(optimizer.count_boundary_vertices(&vertices), 4);
    // only two vertices lie on the five boundary points: the estimate takes over
    optimizer.set_boundary(vec![pt(0, 0), pt(10, 0), pt(20, 20), pt(30, 30), pt(40, 40)]);
    assert_eq!(optimizer.count_boundary_vertices(&vertices), 2);
    optimizer.set_boundary(vec![pt(0, 0), pt(77, 77)]);
    assert_eq!(optimizer.count_boundary_vertices(&vertices), 2);
    assert!(optimizer.is_boundary_vertex(&pt(77, 77)));
    assert!(!optimizer.is_boundary_vertex(&pt(77, 78)));
}

#[test]
fn positions_are_allowed_inside_the_boundary_or_without_one() {
    let mut optimizer = GeneralAnnealingOptimizer::new();
    assert!(optimizer.is_point_inside_boundary(&pt(500, 500)));
    assert!(!optimizer.is_boundary_vertex(&pt(0, 0)));
    optimizer.set_boundary(square(10));
    assert!(optimizer.is_point_inside_boundary(&pt(5, 5)));
    assert!(!optimizer.is_point_inside_boundary(&pt(500, 500)));
}

#[test]
fn annealing_leaves_a_mesh_of_boundary_vertices_alone() {
    let boundary = vec![pt(0, 0), pt(100, 0), pt(100, 100), pt(0, 100), pt(50, 40)];
    let mut mesh = triangulate_points(boundary.clone());
    let before = mesh.clone();
    let mut options = no_options();
    options.max_iterations = Some(300);
    options.target_area = Some(1_000_000);
    options.min_area = Some(0);
    let mut optimizer = GeneralAnnealingOptimizer::from_options(&options);
    optimizer.set_boundary(boundary.clone());
    let angle = |_: &Point, _: &Point, _: &Point| 45_000_000u64;
    let aspect = |_: &Point, _: &Point, _: &Point| 1_730_000u64;
    let accept = |_: i64, _: i64, _: u64| true;
    optimizer.optimize_mesh(&mut mesh, &angle, &aspect, &accept).unwrap();
    assert_eq!(mesh.vertices, before.vertices);
    assert_eq!(mesh.triangle_indices, before.triangle_indices);
    assert_eq!(mesh.triangles, before.triangles);
}

#[test]
fn annealing_protects_boundary_vertices_and_moves_the_others() {
    let boundary = square(100);
    let mut vertices = boundary.clone();
    vertices.extend([pt(30, 30), pt(70, 30), pt(50, 70)]);
    let mut mesh = triangulate_points(vertices.clone());
    let mut options = no_options();
    options.max_iterations = Some(400);
    options.temperature = Some(200_000);
    options.target_area = Some(1_000_000);
    options.min_area = Some(0);
    let mut optimizer = GeneralAnnealingOptimizer::from_options(&options);
    optimizer.set_boundary(boundary.clone());
    let angle = |_: &Point, _: &Point, _: &Point| 0u64;
    let aspect = |_: &Point, _: &Point, _: &Point| 0u64;
    let accept = |_: i64, _: i64, _: u64| true;
    optimizer.optimize_mesh(&mut mesh, &angle, &aspect, &accept).unwrap();
    assert_eq!(mesh.vertices.len(), 7);
    assert_eq!(&mesh.vertices[..4], &boundary[..]);
    assert_ne!(&mesh.vertices[4..], &vertices[4..]);
    for p in &mesh.vertices[4..] {
        assert!(0 <= p.x && p.x <= 100 && 0 <= p.y && p.y <= 100);
    }
    assert_eq!(mesh.triangle_indices, triangulate_points(mesh.vertices.clone()).triangle_indices);
}

#[test]
fn annealing_with_one_free_vertex_always_picks_it() {
    let boundary = square(100);
    let mut vertices = boundary.clone();
    vertices.push(pt(50, 50));
    let mut mesh = triangulate_points(vertices);
    let mut optimizer = GeneralAnnealingOptimizer::new();
    optimizer.max_iterations = 200;
    optimizer.temperature = 200_000;
    optimizer.set_boundary(boundary.clone());
    let angle = |_: &Point, _: &Point, _: &Point| 0u64;
    let aspect = |_: &Point, _: &Point, _: &Point| 0u64;
    let accept = |_: i64, _: i64, _: u64| true;
    optimizer.anneal_vertices(&mut mesh, &angle, &aspect, &accept);
    assert_eq!(&mesh.vertices[..4], &boundary[..]);
    assert_eq!(mesh.vertices.len(), 5);
    let moved = mesh.vertices[4];
    assert!(0 <= moved.x && moved.x <= 100 && 0 <= moved.y && moved.y <= 100);
}

#[test]
fn annealing_skips_meshes_with_quads_and_meshes_without_triangles() {
    let mut optimizer = GeneralAnnealingOptimizer::new();
    optimizer.max_iterations = 50;
    let angle = |_: &Point, _: &Point, _: &Point| 0u64;
    let aspect = |_: &Point, _: &Point, _: &Point| 0u64;
    let accept = |_: i64, _: i64, _: u64| true;
    let mut empty = Mesh::new(vec![pt(0, 0), pt(9, 0), pt(0, 9), pt(3, 3)], vec![]);
    optimizer.optimize_mesh(&mut empty, &angle, &aspect, &accept).unwrap();
    assert_eq!(empty.vertices, vec![pt(0, 0), pt(9, 0), pt(0, 9), pt(3, 3)]);
    let mut quads = triangulate_points(vec![pt(0, 0), pt(90, 0), pt(0, 90), pt(30, 30)]);
    quads.quads = Some(vec![vec![pt(0, 0), pt(90, 0), pt(30, 30), pt(0, 90)]]);
    quads.quad_indices = Some(vec![[0, 1, 3, 2]]);
    let before = quads.clone();
    optimizer.optimize_mesh(&mut quads, &angle, &aspect, &accept).unwrap();
    assert_eq!(quads.vertices, before.vertices);
    assert_eq!(quads.triangle_indices, before.triangle_indices);
}

#[test]
fn oversized_triangles_are_those_beyond_twice_the_target() {
    // one triangle of 50 cells, with a target of 10 cells
    let vertices = vec![pt(0, 0), pt(10, 0), pt(0, 10)];
    let mesh = Mesh::new(vertices.clone(), vec![Triangle::new([0, 1, 2], &vertices)]);
    let mut optimizer = GeneralAnnealingOptimizer::new();
    optimizer.target_area = 20;
    assert_eq!(optimizer.find_oversized_triangles(&mesh), vec![0]);
    optimizer.target_area = 50;
    assert_eq!(optimizer.find_oversized_triangles(&mesh), vec![]);
    optimizer.target_area = 49;
    assert_eq!(optimizer.find_oversized_triangles(&mesh), vec![0]);
    optimizer.min_area = 100;
    assert_eq!(optimizer.find_undersized_triangles(&mesh), vec![]);
    optimizer.min_area = 101;
    assert_eq!(optimizer.find_undersized_triangles(&mesh), vec![0]);
}

#[test]
fn splitting_adds_the_centroid_unless_it_is_outside_the_boundary() {
    let vertices = vec![pt(0, 0), pt(10, 0), pt(0, 10)];
    let mut mesh = Mesh::new(vertices.clone(), vec![Triangle::new([0, 1, 2], &vertices)]);
    let mut optimizer = GeneralAnnealingOptimizer::new();
    optimizer.target_area = 20;
    // a boundary that does not hold the centroid (3, 3)
    optimizer.set_boundary(vec![pt(5, 5), pt(10, 5), pt(10, 10), pt(5, 10)]);
    assert_eq!(optimizer.split_triangle(&mut mesh, 0), Ok(false));
    assert_eq!(mesh.vertices, vertices);
    optimizer.adaptive_size_refinement(&mut mesh).unwrap();
    assert_eq!(mesh.vertices, vertices);
    assert_eq!(mesh.triangle_indices, vec![[0, 1, 2]]);
    // a boundary that holds it
    optimizer.set_boundary(vec![pt(0, 0), pt(10, 0), pt(0, 10)]);
    assert_eq!(optimizer.split_triangle(&mut mesh, 7), Ok(false));
    assert_eq!(optimizer.split_triangle(&mut mesh, 0), Ok(true));
    assert_eq!(mesh.vertices, vec![pt(0, 0), pt(10, 0), pt(0, 10), pt(3, 3)]);
    assert_eq!(mesh.triangle_indices, vec![[0, 1, 2]]);
}

#[test]
fn small_triangles_are_nudged_toward_their_centroid() {
    let vertices = vec![pt(0, 0), pt(30, 0), pt(0, 30), pt(90, 90)];
    let mut mesh = Mesh::new(vertices.clone(), vec![Triangle::new([0, 1, 2], &vertices)]);
    let optimizer = GeneralAnnealingOptimizer::new();
    assert_eq!(optimizer.handle_small_triangle(&mut mesh, 3), Ok(false));
    assert_eq!(mesh.vertices, vertices);
    assert_eq!(optimizer.handle_small_triangle(&mut mesh, 0), Ok(true));
    // the centroid is (10, 10): each corner moves a tenth of the way
    assert_eq!(mesh.vertices, vec![pt(1, 1), pt(28, 1), pt(1, 28), pt(90, 90)]);
}

#[test]
fn size_refinement_splits_until_the_triangles_fit() {
    let vertices = square(40);
    let mut mesh = triangulate_points(vertices.clone());
    let mut optimizer = GeneralAnnealingOptimizer::new();
    optimizer.target_area = 300;
    optimizer.min_area = 0;
    optimizer.set_boundary(vertices.clone());
    optimizer.adaptive_size_refinement(&mut mesh).unwrap();
    assert!(mesh.vertices.len() > 4);
    assert_eq!(&mesh.vertices[..4], &vertices[..]);
    assert_eq!(mesh.triangle_indices, triangulate_points(mesh.vertices.clone()).triangle_indices);
    // nothing to do: the mesh stays as it is
    let mut coarse = triangulate_points(vertices.clone());
    optimizer.target_area = 800;
    optimizer.adaptive_size_refinement(&mut coarse).unwrap();
    assert_eq!(coarse.vertices, vertices);
}

#[test]
fn retriangulation_replaces_the_triangles() {
    let vertices = vec![pt(0, 0), pt(10, 0), pt(10, 10), pt(0, 10), pt(5, 4)];
    let mut mesh = Mesh::new(vertices.clone(), vec![Triangle::new([0, 1, 2], &vertices)]);
    let optimizer = GeneralAnnealingOptimizer::new();
    optimizer.retriangulate_mesh(&mut mesh).unwrap();
    assert_eq!(mesh.vertices, vertices);
    assert_eq!(mesh.triangle_indices.len(), 4);
    assert_eq!(mesh.triangles.len(), 4);
    optimizer.place_vertex(&mut mesh, 4, pt(6, 6));
    assert_eq!(mesh.vertices[4], pt(6, 6));
    assert_eq!(mesh.triangle_indices.len(), 4);
}

#[test]
fn grid_quality_is_the_mean_over_the_positive_triangles() {
    let points = vec![pt(0, 0), pt(4, 0), pt(4, 4), pt(0, 4)];
    let triangles = vec![
        Triangle::new([0, 1, 2], &points),
        Triangle::new([0, 3, 2], &points),
        Triangle::new([0, 2, 3], &points),
    ];
    // the second triangle turns clockwise and does not count
    assert_eq!(mean_valid_worth(&points, &triangles, &[10, 1000, 31]), 20);
    assert_eq!(mean_valid_worth(&points, &triangles[1..2].to_vec(), &[1000]), 0);
    assert_eq!(mean_valid_worth(&points, &vec![], &[]), 0);
    assert_eq!(mean_valid_worth(&points, &triangles[..1].to_vec(), &[u64::MAX]), i64::MAX);
    let mut generator = GridAnnealingMeshGenerator::new(points.clone(), 0);
    generator.triangles = triangles;
    let by_height = |a: &Point, _: &Point, c: &Point| (c.y - a.y) as u64;
    // heights 4 and 4 of the two positive triangles
    assert_eq!(generator.calculate_mesh_quality(&by_height), 4);
}

#[test]
fn volume_quality_compares_the_area_with_the_mean_area() {
    let optimizer = GeneralAnnealingOptimizer::new();
    assert_eq!(optimizer.calculate_volume_quality(50, 200, 2), 500_000);
    assert_eq!(optimizer.calculate_volume_quality(100, 200, 2), 1_000_000);
    assert_eq!(optimizer.calculate_volume_quality(300, 400, 2), 666_666);
    assert_eq!(optimizer.calculate_volume_quality(1, 1000, 2), 100_000);
    assert_eq!(optimizer.calculate_volume_quality(0, 0, 3), 1_000_000);
    assert_eq!(optimizer.calculate_volume_quality(0, 0, 0), 1_000_000);
}

#[test]
fn aspect_ratio_quality_falls_with_the_distance_from_the_target() {
    let mut optimizer = GeneralAnnealingOptimizer::new();
    assert_eq!(optimizer.calculate_aspect_ratio_quality(1_730_000), 1_000_000);
    assert_eq!(optimizer.calculate_aspect_ratio_quality(2_000_000), 843_931);
    assert_eq!(optimizer.calculate_aspect_ratio_quality(1_460_000), 843_931);
    assert_eq!(optimizer.calculate_aspect_ratio_quality(5_000_000), 100_000);
    assert_eq!(optimizer.calculate_aspect_ratio_quality(u64::MAX), 100_000);
    assert_eq!(optimizer.calculate_aspect_ratio_quality(0), 100_000);
    optimizer.target_aspect_ratio = 0;
    assert_eq!(optimizer.calculate_aspect_ratio_quality(0), 100_000);
}

#[test]
fn size_uniformity_quality_punishes_both_too_large_and_too_small() {
    let mut optimizer = GeneralAnnealingOptimizer::new();
    optimizer.target_area = 100;
    optimizer.min_area = 10;
    assert_eq!(optimizer.calculate_size_uniformity_quality(200), 500_000);
    assert_eq!(optimizer.calculate_size_uniformity_quality(100), 1_000_000);
    assert_eq!(optimizer.calculate_size_uniformity_quality(50), 500_000);
    assert_eq!(optimizer.calculate_size_uniformity_quality(5), 250_000);
    assert_eq!(optimizer.calculate_size_uniformity_quality(1), 50_000);
    assert_eq!(optimizer.calculate_size_uniformity_quality(0), 50_000);
    optimizer.target_area = 0;
    optimizer.min_area = 0;
    assert_eq!(optimizer.calculate_size_uniformity_quality(0), 50_000);
    assert_eq!(optimizer.calculate_size_uniformity_quality(7), 50_000);
}

#[test]
fn enhanced_quality_is_the_weighted_mean_of_the_terms() {
    let points = vec![pt(0, 0), pt(4, 0), pt(4, 4), pt(0, 4)];
    let triangles = vec![Triangle::new([0, 1, 2], &points), Triangle::new([0, 2, 3], &points)];
    let mesh = Mesh::new(points.clone(), triangles);
    let mut optimizer = GeneralAnnealingOptimizer::new();
    let angles = [45_000_000, 45_000_000];
    let aspects = [1_730_000, 1_730_000];
    // angle 0.75, volume 1, aspect 1, size 10 / 16 with weights 0.5, 0.3, 0.4, 0.3
    assert_eq!(optimizer.calculate_enhanced_quality(&mesh, &angles, &aspects), 841_666);
    optimizer.target_area = 0;
    // size 0.05, the least
    assert_eq!(optimizer.calculate_enhanced_quality(&mesh, &angles, &aspects), 726_666);
    optimizer.check_size_uniformity = false;
    // 0.75 * 0.5 + 0.3 + 0.4 over 1.2
    assert_eq!(optimizer.calculate_enhanced_quality(&mesh, &angles, &aspects), 895_833);
    optimizer.check_volume = false;
    optimizer.check_aspect_ratio = false;
    assert_eq!(optimizer.calculate_enhanced_quality(&mesh, &angles, &aspects), 750_000);
    // a triangle that turns clockwise does not count
    let flipped = Mesh::new(
        points.clone(),
        vec![Triangle::new([0, 1, 2], &points), Triangle::new([0, 3, 2], &points)],
    );
    assert_eq!(optimizer.calculate_enhanced_quality(&flipped, &[60_000_000, 6], &aspects), 1_000_000);
    let none = Mesh::new(points.clone(), vec![Triangle::new([0, 3, 2], &points)]);
    assert_eq!(optimizer.calculate_enhanced_quality(&none, &[60_000_000], &[0]), 0);
    let angle = |_: &Point, _: &Point, _: &Point| 30_000_000u64;
    let aspect = |_: &Point, _: &Point, _: &Point| 0u64;
    assert_eq!(optimizer.quality_of(&mesh, &angle, &aspect), 500_000);
}

#[test]
fn displacements_are_drawn_from_the_whole_square_around_the_vertex() {
    let boundary = square(100);
    let mut optimizer = GeneralAnnealingOptimizer::new();
    optimizer.max_iterations = 1;
    // a twentieth of the temperature: ten grid units
    optimizer.temperature = 200_000;
    optimizer.set_boundary(boundary.clone());
    let angle = |_: &Point, _: &Point, _: &Point| 0u64;
    let aspect = |_: &Point, _: &Point, _: &Point| 0u64;
    let accept = |_: i64, _: i64, _: u64| true;
    let mut seen_x = Vec::new();
    let mut seen_y = Vec::new();
    for _ in 0..60 {
        let mut vertices = boundary.clone();
        vertices.push(pt(50, 50));
        let mut mesh = triangulate_points(vertices);
        optimizer.anneal_vertices(&mut mesh, &angle, &aspect, &accept);
        let moved = mesh.vertices[4];
        assert!((moved.x - 50).abs() <= 10 && (moved.y - 50).abs() <= 10);
        if !seen_x.contains(&moved.x) {
            seen_x.push(moved.x);
        }
        if !seen_y.contains(&moved.y) {
            seen_y.push(moved.y);
        }
    }
    assert!(seen_x.len() > 3);
    assert!(seen_y.len() > 3);
    assert!(seen_x.iter().any(|&x| x < 50) && seen_x.iter().any(|&x| x > 50));
    assert!(seen_y.iter().any(|&y| y < 50) && seen_y.iter().any(|&y| y > 50));
}

#[test]
fn free_vertices_are_picked_beyond_the_first() {
    let boundary = square(100);
    let mut vertices = boundary.clone();
    vertices.extend([pt(30, 30), pt(70, 30), pt(50, 70), pt(40, 50)]);
    let mut mesh = triangulate_points(vertices.clone());
    let mut optimizer = GeneralAnnealingOptimizer::new();
    optimizer.max_iterations = 300;
    optimizer.temperature = 100_000;
    optimizer.cooling_rate = 1000;
    optimizer.set_boundary(boundary.clone());
    let angle = |_: &Point, _: &Point, _: &Point| 0u64;
    let aspect = |_: &Point, _: &Point, _: &Point| 0u64;
    let accept = |_: i64, _: i64, _: u64| true;
    optimizer.anneal_vertices(&mut mesh, &angle, &aspect, &accept);
    assert_eq!(&mesh.vertices[..4], &boundary[..]);
    let moved = (4..8).filter(|&i| mesh.vertices[i] != vertices[i]).count();
    assert!(moved >= 2);
}

#[test]
fn a_move_that_raises_the_quality_stays_without_asking() {
    let mut generator =
        GridAnnealingMeshGenerator::with_options(square(100), 400_000, 990, i64::MAX);
    let calls = Cell::new(0u64);
    // every triangle is worth more than any triangle measured before
    let quality = |_: &Point, _: &Point, _: &Point| {
        calls.set(calls.get() + 1);
        calls.get()
    };
    let accept = |_: i64, _: i64, _: u64| -> bool { panic!("a better mesh needs no verdict") };
    let _ = generator.generate_mesh_with_iterations(800, 40, &quality, &accept);
    let lattice: Vec<Point> =
        (1..8).flat_map(|row| (1..8).map(move |col| pt(14 * col, 14 * row))).collect();
    assert_eq!(generator.internal_points.len(), 49);
    assert_ne!(generator.internal_points, lattice);
}

#[test]
fn a_vertex_move_that_raises_the_quality_stays_without_asking() {
    let boundary = square(100);
    let mut vertices = boundary.clone();
    vertices.extend([pt(30, 30), pt(70, 30), pt(50, 70)]);
    let mut mesh = triangulate_points(vertices.clone());
    let mut optimizer = GeneralAnnealingOptimizer::new();
    optimizer.max_iterations = 60;
    optimizer.temperature = 200_000;
    optimizer.check_volume = false;
    optimizer.check_aspect_ratio = false;
    optimizer.check_size_uniformity = false;
    optimizer.set_boundary(boundary.clone());
    let calls = Cell::new(0u64);
    let angle = |_: &Point, _: &Point, _: &Point| {
        calls.set(calls.get() + 60);
        calls.get()
    };
    let aspect = |_: &Point, _: &Point, _: &Point| 0u64;
    let accept = |_: i64, _: i64, _: u64| -> bool { panic!("a better mesh needs no verdict") };
    optimizer.anneal_vertices(&mut mesh, &angle, &aspect, &accept);
    assert_eq!(&mesh.vertices[..4], &boundary[..]);
    assert_ne!(&mesh.vertices[4..], &vertices[4..]);
}

#[test]
fn a_vertex_move_that_is_refused_is_put_back() {
    let boundary = square(100);
    let mut vertices = boundary.clone();
    vertices.extend([pt(30, 30), pt(70, 30), pt(50, 70)]);
    let mut mesh = triangulate_points(vertices.clone());
    let mut optimizer = GeneralAnnealingOptimizer::new();
    optimizer.max_iterations = 60;
    optimizer.temperature = 200_000;
    // with the angle alone the quality is the same for every mesh
    optimizer.check_volume = false;
    optimizer.check_aspect_ratio = false;
    optimizer.check_size_uniformity = false;
    optimizer.set_boundary(boundary.clone());
    let angle = |_: &Point, _: &Point, _: &Point| 0u64;
    let aspect = |_: &Point, _: &Point, _: &Point| 0u64;
    let accept = |before: i64, after: i64, _: u64| {
        assert!(after <= before);
        false
    };
    optimizer.anneal_vertices(&mut mesh, &angle, &aspect, &accept);
    assert_eq!(mesh.vertices, vertices);
    assert_eq!(mesh.triangle_indices, triangulate_points(vertices.clone()).triangle_indices);
}

#[test]
fn a_proposal_for_an_interior_point_is_carried_out() {
    let mut generator = GridAnnealingMeshGenerator::new(square(100), 0);
    generator.internal_points = vec![pt(50, 50), pt(20, 20)];
    let quality = |_: &Point, _: &Point, _: &Point| 5u64;
    let unasked = |_: i64, _: i64, _: u64| -> bool { panic!("a better mesh needs no verdict") };
    let yes = |_: i64, _: i64, _: u64| true;
    let no = |before: i64, after: i64, t: u64| {
        assert_eq!((before, after, t), (5, 5, 300_000));
        false
    };
    // a target outside the boundary or outside the range: nothing happens
    assert!(!generator.propose_move(0, pt(150, 50), 300_000, 0, &quality, &unasked));
    assert!(!generator.propose_move(1, pt(2_000_000, 20), 300_000, 0, &quality, &unasked));
    assert_eq!(generator.internal_points, vec![pt(50, 50), pt(20, 20)]);
    assert!(generator.triangles.is_empty());
    // the mesh is worth 5 after the move, more than before
    assert!(generator.propose_move(0, pt(60, 40), 300_000, 4, &quality, &unasked));
    assert_eq!(generator.internal_points, vec![pt(60, 40), pt(20, 20)]);
    let moved = generator.triangles.clone();
    assert!(!moved.is_empty());
    // no better than before, and refused: the point is put back
    assert!(!generator.propose_move(0, pt(50, 50), 300_000, 5, &quality, &no));
    assert_eq!(generator.internal_points, vec![pt(60, 40), pt(20, 20)]);
    let back: Vec<[usize; 3]> = generator.triangles.iter().map(|t| t.vertices).collect();
    let before: Vec<[usize; 3]> = moved.iter().map(|t| t.vertices).collect();
    assert_eq!(back, before);
    // no better than before, but accepted
    assert!(generator.propose_move(1, pt(30, 70), 300_000, 5, &quality, &yes));
    assert_eq!(generator.internal_points, vec![pt(60, 40), pt(30, 70)]);
    let mut all = square(100);
    all.extend([pt(60, 40), pt(30, 70)]);
    let now: Vec<[usize; 3]> = generator.triangles.iter().map(|t| t.vertices).collect();
    assert_eq!(now, triangulate_points(all).triangle_indices);
}

#[test]
fn a_proposal_for_a_vertex_is_carried_out() {
    let boundary = square(100);
    let mut vertices = boundary.clone();
    vertices.extend([pt(30, 30), pt(70, 30), pt(50, 70)]);
    let mut mesh = triangulate_points(vertices.clone());
    let start = mesh.clone();
    let mut optimizer = GeneralAnnealingOptimizer::new();
    optimizer.check_volume = false;
    optimizer.check_aspect_ratio = false;
    optimizer.check_size_uniformity = false;
    optimizer.set_boundary(boundary.clone());
    let angle = |_: &Point, _: &Point, _: &Point| 30_000_000u64;
    let aspect = |_: &Point, _: &Point, _: &Point| 0u64;
    let unasked = |_: i64, _: i64, _: u64| -> bool { panic!("a better mesh needs no verdict") };
    let yes = |_: i64, _: i64, _: u64| true;
    let no = |before: i64, after: i64, _: u64| {
        assert_eq!(before, after);
        false
    };
    // a vertex on a boundary point, a target outside the boundary, a target out of range
    assert!(!optimizer.propose_move(&mut mesh, 0, pt(10, 10), 500_000, -1, &angle, &aspect, &unasked));
    assert!(!optimizer.propose_move(&mut mesh, 4, pt(150, 30), 500_000, -1, &angle, &aspect, &unasked));
    assert!(!optimizer.propose_move(&mut mesh, 4, pt(1_000_001, 30), 500_000, -1, &angle, &aspect, &unasked));
    assert_eq!(mesh.vertices, start.vertices);
    assert_eq!(mesh.triangle_indices, start.triangle_indices);
    assert_eq!(mesh.triangles, start.triangles);
    // half of sixty degrees for every triangle: the mesh is worth a half
    let worth = optimizer.quality_of(&mesh, &angle, &aspect);
    assert_eq!(worth, 500_000);
    assert!(optimizer.propose_move(&mut mesh, 4, pt(35, 25), 500_000, worth - 1, &angle, &aspect, &unasked));
    vertices[4] = pt(35, 25);
    assert_eq!(mesh.vertices, vertices);
    assert_eq!(mesh.triangle_indices, triangulate_points(vertices.clone()).triangle_indices);
    assert!(!optimizer.propose_move(&mut mesh, 5, pt(60, 40), 500_000, worth, &angle, &aspect, &no));
    assert_eq!(mesh.vertices, vertices);
    assert_eq!(mesh.triangle_indices, triangulate_points(vertices.clone()).triangle_indices);
    assert!(optimizer.propose_move(&mut mesh, 5, pt(60, 40), 500_000, worth, &angle, &aspect, &yes));
    vertices[5] = pt(60, 40);
    assert_eq!(mesh.vertices, vertices);
    assert_eq!(mesh.triangles, triangulate_points(vertices.clone()).triangles);
}

#[test]
fn a_mesh_of_boundary_vertices_is_only_refined_in_size() {
    let boundary = vec![pt(0, 0), pt(100, 0), pt(100, 100), pt(0, 100), pt(50, 40)];
    let angle = |_: &Point, _: &Point, _: &Point| 45_000_000u64;
    let aspect = |_: &Point, _: &Point, _: &Point| 1_730_000u64;
    let accept = |_: i64, _: i64, _: u64| true;
    // no triangle is below the smallest wanted area or beyond twice the target
    let mut options = no_options();
    options.max_iterations = Some(300);
    options.target_area = Some(1_000_000);
    options.min_area = Some(10);
    let mut optimizer = GeneralAnnealingOptimizer::from_options(&options);
    optimizer.set_boundary(boundary.clone());
    let mut mesh = triangulate_points(boundary.clone());
    let before = mesh.clone();
    optimizer.optimize_mesh(&mut mesh, &angle, &aspect, &accept).unwrap();
    assert_eq!(mesh.vertices, before.vertices);
    assert_eq!(mesh.triangle_indices, before.triangle_indices);
    assert_eq!(mesh.triangles, before.triangles);
    // with a small target the outcome is that of size refinement alone
    options.target_area = Some(1000);
    options.min_area = Some(0);
    let mut refining = GeneralAnnealingOptimizer::from_options(&options);
    refining.set_boundary(boundary.clone());
    let mut annealed = triangulate_points(boundary.clone());
    refining.optimize_mesh(&mut annealed, &angle, &aspect, &accept).unwrap();
    let mut refined = triangulate_points(boundary.clone());
    refining.adaptive_size_refinement(&mut refined).unwrap();
    assert_eq!(annealed.vertices, refined.vertices);
    assert_eq!(annealed.triangle_indices, refined.triangle_indices);
    assert_eq!(&annealed.vertices[..5], &boundary[..]);
    assert!(annealed.vertices.len() > 5);
}

#[test]
fn size_refinement_nudges_every_corner_of_a_small_triangle() {
    // both triangles of the square fall short of the smallest wanted area
    let boundary = square(100);
    let mut options = no_options();
    options.max_iterations = Some(0);
    options.target_area = Some(1_000_000);
    options.min_area = Some(20_000);
    let mut optimizer = GeneralAnnealingOptimizer::from_options(&options);
    optimizer.set_boundary(boundary.clone());
    let mut mesh = triangulate_points(boundary.clone());
    let angle = |_: &Point, _: &Point, _: &Point| 45_000_000u64;
    let aspect = |_: &Point, _: &Point, _: &Point| 1_730_000u64;
    let accept = |_: i64, _: i64, _: u64| true;
    optimizer.optimize_mesh(&mut mesh, &angle, &aspect, &accept).unwrap();
    assert_eq!(mesh.vertices.len(), 4);
    // a corner is nudged only to a place inside the boundary
    let moved = (0..4).filter(|&i| mesh.vertices[i] != boundary[i]).count();
    assert!(moved > 0);
    for v in mesh.vertices.iter() {
        assert!(optimizer.is_point_inside_boundary(v) || boundary.contains(v));
    }
}
