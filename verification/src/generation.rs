//! The front of the library: from a request to a validated mesh.

use vstd::prelude::*;
use crate::annealing::{
    grid_anneals_to, GridAnnealingMeshGenerator, DEFAULT_COOLING_RATE, DEFAULT_ITERATIONS,
    DEFAULT_TEMPERATURE,
};
use crate::geometry::lemma_input_points_are_working_points;
use crate::sizing::{edge_length_for, lattice_spacing_for, target_edge_length};
use crate::delaunay::{
    centroid_of, copy_points, delaunay_corners, hexagonal_grid, interior_lattice,
    triangulate_points, DelaunayTriangulator,
};
use crate::elements::{corners_in_bounds, Corners};
use crate::geometry::{
    all_within, boundary_samples, centroid, inside_polygon, point_in_slice, points_within,
    subdivide_boundary, Algorithm, MeshRequest, Point, COORD_LIMIT, EXTENT,
};
use crate::mesh::{corner_points, first_triangle_fault, Mesh, MeshError};
use crate::paving::{
    paving_points, paving_quads, paving_triangles, paving_verdict, PavingMeshGenerator,
};

verus! {

/// The target area when a request names none: one hundred grid cells.
pub const DEFAULT_AREA: u64 = 200;

/// The minimum angle, in degrees, when a request names none.
pub const DEFAULT_MIN_ANGLE: u64 = 20;

/// Fewest boundary points for a triangulation.
pub const MIN_POINTS: usize = 3;

/// Fewest boundary points for a paving.
pub const MIN_PAVING_POINTS: usize = 4;

/// The quality, in millionths, that goes with a minimum angle in degrees:
/// the angle as a fraction of sixty degrees.
pub open spec fn threshold_for(min_angle: u64) -> i64 {
    if min_angle * 1_000_000 / 60 > i64::MAX {
        i64::MAX
    } else {
        (min_angle * 1_000_000 / 60) as i64
    }
}

/// Computes the quality threshold for a minimum angle.
pub fn quality_threshold_for(min_angle: u64) -> (q: i64)
    ensures
        q == threshold_for(min_angle),
{
    let scaled: u128 = (min_angle as u128) * 1_000_000 / 60;
    if scaled > i64::MAX as u128 {
        i64::MAX
    } else {
        scaled as i64
    }
}

/// The triangles among the first `n` whose centroid lies inside the
/// boundary, in order.
pub open spec fn centroid_filtered(
    tris: Seq<Corners>,
    vertices: Seq<Point>,
    boundary: Seq<Point>,
    n: int,
) -> Seq<Corners>
    decreases n,
{
    if n <= 0 {
        Seq::empty()
    } else {
        let before = centroid_filtered(tris, vertices, boundary, n - 1);
        if inside_polygon(boundary, centroid_of(tris[n - 1], vertices)) {
            before.push(tris[n - 1])
        } else {
            before
        }
    }
}

/// The seed points of the Delaunay strategy: the hexagonal lattice for the
/// target area with the refined boundary, or the boundary alone when no area
/// is asked for.
pub open spec fn delaunay_seeds(boundary: Seq<Point>, max_area: Option<u64>) -> Seq<Point> {
    match max_area {
        Some(area) => hexagonal_grid(boundary, edge_length_for(area)),
        None => boundary,
    }
}

/// The triangles of the Delaunay strategy: the triangulation of the seeds
/// with every triangle removed whose centroid lies outside the boundary.
pub open spec fn delaunay_triangles(boundary: Seq<Point>, max_area: Option<u64>) -> Seq<Corners> {
    let seeds = delaunay_seeds(boundary, max_area);
    centroid_filtered(
        delaunay_corners(seeds),
        seeds,
        boundary,
        delaunay_corners(seeds).len() as int,
    )
}

/// Cuts every boundary edge that is longer than the edge length of the
/// target area into even pieces.
pub fn refine_boundary_edges(boundary_points: Vec<Point>, max_area: u64) -> (r: Result<
    Vec<Point>,
    MeshError,
>)
    requires
        all_within(boundary_points@, COORD_LIMIT as int),
    ensures
        r is Ok,
        r->Ok_0@ == boundary_samples(
            boundary_points@,
            edge_length_for(max_area),
            boundary_points.len() as int,
        ),
        all_within(r->Ok_0@, COORD_LIMIT as int),
{
    let target_edge_length = target_edge_length(max_area);
    proof {
        lemma_input_points_are_working_points(boundary_points@);
    }
    Ok(subdivide_boundary(boundary_points.as_slice(), target_edge_length))
}

/// Generates a mesh for a request.  The boundary needs three points, for a
/// paving four, all in the input range; the strategy is Delaunay unless the
/// request names another.  Every mesh that comes back has passed validation.
/// The annealing strategy anneals on the schedule of the request.
///
/// The annealing strategy asks `quality` what a triangle with three given
/// corners is worth, in millionths, and `accept_worse` whether to keep a
/// move that lowered the quality of the mesh; the other strategies call
/// neither.
pub fn generate_mesh<
    Q: Fn(&Point, &Point, &Point) -> u64,
    A: Fn(i64, i64, u64) -> bool,
>(request: MeshRequest, quality: &Q, accept_worse: &A) -> (r: Result<Mesh, MeshError>)
    requires
        forall|a: &Point, b: &Point, c: &Point| quality.requires((a, b, c)),
        forall|before: i64, after: i64, t: u64| accept_worse.requires((before, after, t)),
    ensures
        r is Ok ==> r->Ok_0.valid(),
        request.geometry.points.len() < MIN_POINTS ==> r == Err::<Mesh, MeshError>(
            MeshError::TooFewPoints { needed: MIN_POINTS, found: request.geometry.points.len() },
        ),
        request.geometry.points.len() >= MIN_POINTS && !all_within(
            request.geometry.points@,
            COORD_LIMIT as int,
        ) ==> r == Err::<Mesh, MeshError>(MeshError::CoordinateOutOfRange),
        request.geometry.points.len() >= MIN_POINTS && all_within(
            request.geometry.points@,
            COORD_LIMIT as int,
        ) ==> match request.algorithm {
            Some(Algorithm::Paving) => paving_outcome(
                request.geometry.points@,
                request.max_area.unwrap_or(DEFAULT_AREA),
                r,
            ),
            Some(Algorithm::Annealing) => annealing_outcome(
                *quality,
                *accept_worse,
                schedule_of(request),
                request.geometry.points@,
                request.max_area.unwrap_or(DEFAULT_AREA),
                r,
            ),
            _ => delaunay_outcome(request.geometry.points@, request.max_area, r),
        },
{
    if request.geometry.points.len() < MIN_POINTS {
        return Err(
            MeshError::TooFewPoints { needed: MIN_POINTS, found: request.geometry.points.len() },
        );
    }
    if !points_within(&request.geometry.points, COORD_LIMIT) {
        return Err(MeshError::CoordinateOutOfRange);
    }
    match request.algorithm {
        Some(Algorithm::Paving) => generate_paving_mesh(request),
        Some(Algorithm::Annealing) => generate_annealing_mesh(request, quality, accept_worse),
        _ => generate_delaunay_mesh(request),
    }
}

/// What the paving strategy returns for a boundary in range.
pub open spec fn paving_outcome(
    boundary: Seq<Point>,
    target_size: u64,
    r: Result<Mesh, MeshError>,
) -> bool {
    if boundary.len() < MIN_PAVING_POINTS {
        r == Err::<Mesh, MeshError>(
            MeshError::TooFewPoints { needed: MIN_PAVING_POINTS, found: boundary.len() as usize },
        )
    } else {
        match r {
            Ok(mesh) => {
                &&& mesh.vertices@ == paving_points(boundary, target_size)
                &&& mesh.tri_corners() == paving_triangles(boundary, target_size)
                &&& mesh.quad_corners() == paving_quads(boundary, target_size)
                &&& mesh.triangles_denormalized()
                &&& mesh.quads_denormalized()
                &&& mesh.valid()
            },
            Err(e) => Err::<(), MeshError>(e) == paving_verdict(boundary, target_size),
        }
    }
}

/// What the Delaunay strategy returns for a boundary in range: the filtered
/// triangulation of the seeds if it passes validation, and else the fault of
/// its first faulty triangle.
pub open spec fn delaunay_outcome(
    boundary: Seq<Point>,
    max_area: Option<u64>,
    r: Result<Mesh, MeshError>,
) -> bool {
    let seeds = delaunay_seeds(boundary, max_area);
    let tris = delaunay_triangles(boundary, max_area);
    match r {
        Ok(mesh) => {
            &&& mesh.vertices@ == seeds
            &&& mesh.tri_corners() == tris
            &&& mesh.triangles_denormalized()
            &&& mesh.quads is None
            &&& mesh.quad_indices is None
            &&& mesh.valid()
        },
        Err(e) => first_triangle_fault(tris, seeds, tris.len() as int) == Some(e),
    }
}

/// What holds of the vertices that the annealing strategy leaves behind for
/// a boundary, whatever the random numbers were: they are the refined
/// boundary followed by as many points as the interior lattice has, each of
/// which is the lattice point of its place or a point inside the refined
/// boundary, and all lie in the input range.
pub open spec fn annealed_vertices(
    boundary: Seq<Point>,
    target_area: u64,
    vertices: Seq<Point>,
) -> bool {
    let refined = boundary_samples(boundary, edge_length_for(target_area), boundary.len() as int);
    let lattice = interior_lattice(refined, lattice_spacing_for(target_area, 49));
    &&& vertices.len() == refined.len() + lattice.len()
    &&& vertices.take(refined.len() as int) == refined
    &&& forall|i: int|
        0 <= i < lattice.len() ==> (#[trigger] vertices[refined.len() + i]) == lattice[i]
            || inside_polygon(refined, vertices[refined.len() + i])
    &&& all_within(vertices, COORD_LIMIT as int)
}

/// The schedule of the annealing strategy for a request: what the request
/// names, and for the rest the defaults, the threshold being the quality
/// that goes with the minimum angle.
pub struct Schedule {
    /// In thousandths.
    pub temperature: u64,
    /// In thousandths.
    pub cooling_rate: u64,
    pub max_iterations: u32,
    /// In millionths.
    pub quality_threshold: i64,
}

/// The schedule that a request asks for.
pub open spec fn schedule_of(request: MeshRequest) -> Schedule {
    let threshold = threshold_for(request.min_angle.unwrap_or(DEFAULT_MIN_ANGLE));
    match request.annealing_options {
        Some(options) => Schedule {
            temperature: options.temperature.unwrap_or(DEFAULT_TEMPERATURE),
            cooling_rate: options.cooling_rate.unwrap_or(DEFAULT_COOLING_RATE),
            max_iterations: options.max_iterations.unwrap_or(DEFAULT_ITERATIONS),
            quality_threshold: options.quality_threshold.unwrap_or(threshold),
        },
        None => Schedule {
            temperature: DEFAULT_TEMPERATURE,
            cooling_rate: DEFAULT_COOLING_RATE,
            max_iterations: DEFAULT_ITERATIONS,
            quality_threshold: threshold,
        },
    }
}

/// The vertices are what grid annealing on a schedule leads to for a
/// boundary: from the refined boundary with the interior lattice and their
/// triangulation, step by step, to the refined boundary with the interior
/// points that the vertices end in, and their triangulation.
pub open spec fn annealed_on<Q: Fn(&Point, &Point, &Point) -> u64, A: Fn(i64, i64, u64) -> bool>(
    quality: Q,
    accept_worse: A,
    schedule: Schedule,
    boundary: Seq<Point>,
    target_area: u64,
    vertices: Seq<Point>,
) -> bool {
    let refined = boundary_samples(boundary, edge_length_for(target_area), boundary.len() as int);
    let lattice = interior_lattice(refined, lattice_spacing_for(target_area, 49));
    &&& vertices.len() >= refined.len()
    &&& grid_anneals_to(
        quality,
        accept_worse,
        schedule.quality_threshold,
        refined,
        schedule.cooling_rate,
        schedule.temperature,
        schedule.max_iterations as nat,
        lattice,
        delaunay_corners(refined + lattice),
        vertices.skip(refined.len() as int),
        delaunay_corners(vertices),
    )
}

/// What holds of the outcome of the annealing strategy for a boundary in
/// range: the vertices are those that annealing on the schedule leads to,
/// the triangles are their triangulation, and the mesh has passed
/// validation; or the error is the fault of the first faulty triangle of
/// such a triangulation.
pub open spec fn annealing_outcome<
    Q: Fn(&Point, &Point, &Point) -> u64,
    A: Fn(i64, i64, u64) -> bool,
>(
    quality: Q,
    accept_worse: A,
    schedule: Schedule,
    boundary: Seq<Point>,
    target_area: u64,
    r: Result<Mesh, MeshError>,
) -> bool {
    match r {
        Ok(mesh) => {
            &&& annealed_vertices(boundary, target_area, mesh.vertices@)
            &&& annealed_on(quality, accept_worse, schedule, boundary, target_area, mesh.vertices@)
            &&& mesh.tri_corners() == delaunay_corners(mesh.vertices@)
            &&& mesh.triangles_denormalized()
            &&& mesh.quads is None
            &&& mesh.quad_indices is None
            &&& mesh.valid()
        },
        Err(e) => exists|vertices: Seq<Point>|
            {
                &&& #[trigger] annealed_vertices(boundary, target_area, vertices)
                &&& annealed_on(quality, accept_worse, schedule, boundary, target_area, vertices)
                &&& first_triangle_fault(
                    delaunay_corners(vertices),
                    vertices,
                    delaunay_corners(vertices).len() as int,
                ) == Some(e)
            },
    }
}

/// The annealing strategy: the grid annealing generator with the schedule of
/// the request.
fn generate_annealing_mesh<
    Q: Fn(&Point, &Point, &Point) -> u64,
    A: Fn(i64, i64, u64) -> bool,
>(request: MeshRequest, quality: &Q, accept_worse: &A) -> (r: Result<Mesh, MeshError>)
    requires
        all_within(request.geometry.points@, COORD_LIMIT as int),
        forall|a: &Point, b: &Point, c: &Point| quality.requires((a, b, c)),
        forall|before: i64, after: i64, t: u64| accept_worse.requires((before, after, t)),
    ensures
        request.geometry.points.len() < MIN_POINTS ==> r == Err::<Mesh, MeshError>(
            MeshError::TooFewPoints { needed: MIN_POINTS, found: request.geometry.points.len() },
        ),
        request.geometry.points.len() >= MIN_POINTS ==> annealing_outcome(
            *quality,
            *accept_worse,
            schedule_of(request),
            request.geometry.points@,
            request.max_area.unwrap_or(DEFAULT_AREA),
            r,
        ),
{
    if request.geometry.points.len() < MIN_POINTS {
        return Err(
            MeshError::TooFewPoints { needed: MIN_POINTS, found: request.geometry.points.len() },
        );
    }
    let target_area = request.max_area.unwrap_or(DEFAULT_AREA);
    let quality_threshold = quality_threshold_for(request.min_angle.unwrap_or(DEFAULT_MIN_ANGLE));
    let max_iterations = match &request.annealing_options {
        Some(options) => options.max_iterations.unwrap_or(DEFAULT_ITERATIONS),
        None => DEFAULT_ITERATIONS,
    };
    let ghost boundary = request.geometry.points@;
    let mut annealing_generator = match request.annealing_options {
        Some(annealing_options) => {
            let temperature = annealing_options.temperature.unwrap_or(
                crate::annealing::DEFAULT_TEMPERATURE,
            );
            let cooling_rate = annealing_options.cooling_rate.unwrap_or(
                crate::annealing::DEFAULT_COOLING_RATE,
            );
            let quality_threshold = annealing_options.quality_threshold.unwrap_or(
                quality_threshold,
            );
            GridAnnealingMeshGenerator::with_options(
                request.geometry.points,
                temperature,
                cooling_rate,
                quality_threshold,
            )
        },
        None => GridAnnealingMeshGenerator::new(request.geometry.points, quality_threshold),
    };
    let r = annealing_generator.generate_mesh_with_iterations(
        target_area,
        max_iterations,
        quality,
        accept_worse,
    );
    proof {
        let all = annealing_generator.all_points();
        let refined = annealing_generator.boundary_points@;
        let lattice = interior_lattice(refined, lattice_spacing_for(target_area, 49));
        assert(all.take(refined.len() as int) =~= refined);
        assert(all.len() == refined.len() + lattice.len());
        assert forall|i: int| 0 <= i < lattice.len() implies (#[trigger] all[refined.len() + i])
            == lattice[i] || inside_polygon(refined, all[refined.len() + i]) by {
            assert(all[refined.len() + i] == annealing_generator.internal_points[i]);
            assert((Seq::<Point>::empty() + lattice)[i] == lattice[i]);
        }
        assert forall|i: int| 0 <= i < all.len() implies (#[trigger] all[i]).within(
            COORD_LIMIT as int,
        ) by {
            if i < refined.len() {
                assert(refined[i].within(COORD_LIMIT as int));
            } else {
                assert(annealing_generator.internal_points@[i - refined.len()].within(
                    COORD_LIMIT as int,
                ));
            }
        }
        assert(annealed_vertices(boundary, target_area, all));
        assert(all.skip(refined.len() as int) =~= annealing_generator.internal_points@);
        assert(Seq::<Point>::empty() + lattice =~= lattice);
        assert(annealed_on(
            *quality,
            *accept_worse,
            schedule_of(request),
            boundary,
            target_area,
            all,
        ));
    }
    r
}

/// The paving strategy.
fn generate_paving_mesh(request: MeshRequest) -> (r: Result<Mesh, MeshError>)
    requires
        all_within(request.geometry.points@, COORD_LIMIT as int),
    ensures
        paving_outcome(request.geometry.points@, request.max_area.unwrap_or(DEFAULT_AREA), r),
{
    if request.geometry.points.len() < MIN_PAVING_POINTS {
        return Err(
            MeshError::TooFewPoints {
                needed: MIN_PAVING_POINTS,
                found: request.geometry.points.len(),
            },
        );
    }
    let target_size = request.max_area.unwrap_or(DEFAULT_AREA);
    let mut paving_generator = PavingMeshGenerator::new(request.geometry.points);
    paving_generator.generate_mesh(target_size)
}

/// The Delaunay strategy: seeds, triangulation, filtering against the
/// boundary, validation.
fn generate_delaunay_mesh(request: MeshRequest) -> (r: Result<Mesh, MeshError>)
    requires
        all_within(request.geometry.points@, COORD_LIMIT as int),
    ensures
        delaunay_outcome(request.geometry.points@, request.max_area, r),
{
    let boundary_points = request.geometry.points;
    let points = match request.max_area {
        Some(max_area) => {
            let target_edge_length = target_edge_length(max_area);
            DelaunayTriangulator::generate_hexagonal_grid(
                boundary_points.as_slice(),
                target_edge_length,
            )
        },
        None => copy_points(&boundary_points),
    };
    let mesh = triangulate_points(points);
    proof {
        lemma_input_points_are_working_points(mesh.vertices@);
        lemma_input_points_are_working_points(boundary_points@);
    }
    let filtered = filter_mesh_outside_boundary(mesh, boundary_points.as_slice());
    match filtered {
        Ok(filtered_mesh) => {
            assert(filtered_mesh.quad_corners() =~= Seq::empty());
            match filtered_mesh.validate_jacobians() {
                Err(e) => Err(e),
                Ok(()) => Ok(filtered_mesh),
            }
        },
        Err(e) => Err(e),
    }
}

/// Keeps the triangles of the mesh whose centroid lies inside the boundary.
pub fn filter_mesh_outside_boundary(mesh: Mesh, boundary: &[Point]) -> (r: Result<Mesh, MeshError>)
    requires
        mesh.triangles_in_bounds(),
        mesh.triangles_denormalized(),
        all_within(mesh.vertices@, EXTENT as int),
        all_within(boundary@, EXTENT as int),
    ensures
        r is Ok,
        r->Ok_0.vertices@ == mesh.vertices@,
        r->Ok_0.tri_corners() == centroid_filtered(
            mesh.tri_corners(),
            mesh.vertices@,
            boundary@,
            mesh.triangle_indices.len() as int,
        ),
        r->Ok_0.triangles_in_bounds(),
        r->Ok_0.triangles_denormalized(),
        r->Ok_0.quads is None,
        r->Ok_0.quad_indices is None,
{
    let mut filtered_triangles: Vec<Vec<Point>> = Vec::new();
    let mut filtered_indices: Vec<[usize; 3]> = Vec::new();
    let ghost tris = mesh.tri_corners();
    let mut i: usize = 0;
    while i < mesh.triangle_indices.len()
        invariant
            i <= mesh.triangle_indices.len(),
            mesh.triangles_in_bounds(),
            mesh.triangles_denormalized(),
            all_within(mesh.vertices@, EXTENT as int),
            all_within(boundary@, EXTENT as int),
            tris == mesh.tri_corners(),
            filtered_triangles.len() == filtered_indices.len(),
            crate::mesh::index_corners(filtered_indices@) == centroid_filtered(
                tris,
                mesh.vertices@,
                boundary@,
                i as int,
            ),
            forall|k: int|
                0 <= k < filtered_indices.len() ==> corners_in_bounds(
                    #[trigger] crate::mesh::index_corners(filtered_indices@)[k],
                    mesh.vertices.len() as int,
                ),
            forall|k: int|
                0 <= k < filtered_indices.len() ==> (#[trigger] filtered_triangles[k])@
                    == corner_points(
                    crate::mesh::index_corners(filtered_indices@)[k],
                    mesh.vertices@,
                ),
        decreases mesh.triangle_indices.len() - i,
    {
        let triangle_indices = mesh.triangle_indices[i];
        assert(corners_in_bounds(tris[i as int], mesh.vertices.len() as int));
        assert(tris[i as int] == (triangle_indices[0], triangle_indices[1], triangle_indices[2]));
        let p1 = &mesh.vertices[triangle_indices[0]];
        let p2 = &mesh.vertices[triangle_indices[1]];
        let p3 = &mesh.vertices[triangle_indices[2]];
        let centroid = centroid(p1, p2, p3);
        if is_point_inside_polygon(&centroid, boundary) {
            let ghost before = crate::mesh::index_corners(filtered_indices@);
            let ghost copies = filtered_triangles@;
            assert(mesh.triangles[i as int]@ == corner_points(tris[i as int], mesh.vertices@));
            filtered_triangles.push(copy_points(&mesh.triangles[i]));
            filtered_indices.push(triangle_indices);
            assert(crate::mesh::index_corners(filtered_indices@) =~= before.push(tris[i as int]));
        }
        i += 1;
    }
    Ok(
        Mesh {
            vertices: mesh.vertices,
            triangles: filtered_triangles,
            triangle_indices: filtered_indices,
            quads: None,
            quad_indices: None,
        },
    )
}

/// Ray-casting test of `point` against the closed polygon.
fn is_point_inside_polygon(point: &Point, polygon: &[Point]) -> (r: bool)
    requires
        all_within(polygon@, EXTENT as int),
        point.within(EXTENT as int),
    ensures
        r == inside_polygon(polygon@, *point),
{
    point_in_slice(polygon, point)
}

} // verus!
