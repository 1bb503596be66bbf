//! Paving: a structured grid of quads inside the boundary, with a fan of
//! triangles over the boundary itself.

use vstd::prelude::*;
use crate::sizing::{lattice_spacing, lattice_spacing_for};
use crate::delaunay::{
    bounding_box, generate_interior_lattice, interior_lattice, lemma_bounding_box,
    DelaunayTriangulator,
};
use crate::elements::{
    corners_in_bounds, quad_in_bounds, quad_positive, Corners, Quad, QuadCorners, Triangle,
};
use crate::geometry::{all_within, cross, inside_polygon, point_in_slice, Point, COORD_LIMIT, EXTENT};
use crate::mesh::{first_quad_fault, first_triangle_fault, Mesh, MeshError};

verus! {

/// The number of steps of length `step` that cover `extent`: the quotient
/// rounded up.
pub open spec fn steps_across(extent: int, step: int) -> int {
    if extent % step == 0 {
        extent / step
    } else {
        extent / step + 1
    }
}

/// The quad of the cell at `(row, col)` of a grid with `cols` columns whose
/// points follow the `boundary_count` boundary points: its four corners in
/// winding order, or none when the cell reaches past the end of the point
/// list.  The first winding is kept if it is positive, and else the
/// opposite one is taken.
pub open spec fn cell_quad(
    points: Seq<Point>,
    boundary_count: int,
    cols: int,
    row: int,
    col: int,
) -> Option<QuadCorners> {
    let base = boundary_count + row * cols + col;
    if base + cols + 1 < points.len() {
        let first = (base as usize, (base + 1) as usize, (base + cols + 1) as usize, (base
            + cols) as usize);
        if quad_positive(first, points) {
            Some(first)
        } else {
            Some(
                (base as usize, (base + cols) as usize, (base + cols + 1) as usize, (base
                    + 1) as usize),
            )
        }
    } else {
        None
    }
}

/// The quads of the first `c` cells of row `row`.
pub open spec fn row_quads(points: Seq<Point>, boundary_count: int, cols: int, row: int, c: int) -> Seq<
    QuadCorners,
>
    decreases c,
{
    if c <= 0 {
        Seq::empty()
    } else {
        let before = row_quads(points, boundary_count, cols, row, c - 1);
        match cell_quad(points, boundary_count, cols, row, c - 1) {
            Some(q) => before.push(q),
            None => before,
        }
    }
}

/// The quads of the first `r` rows; a row has `cols - 1` cells.
pub open spec fn grid_quads(points: Seq<Point>, boundary_count: int, cols: int, r: int) -> Seq<
    QuadCorners,
>
    decreases r,
{
    if r <= 0 {
        Seq::empty()
    } else {
        grid_quads(points, boundary_count, cols, r - 1) + row_quads(
            points,
            boundary_count,
            cols,
            r - 1,
            cols - 1,
        )
    }
}

/// Triangle `i` of the fan over the boundary: the first boundary point with
/// points `i` and `i + 1`, the latter two swapped if the triangle would turn
/// clockwise.
pub open spec fn fan_triangle(points: Seq<Point>, i: int) -> Corners {
    if cross(points[0], points[i], points[i + 1]) < 0 {
        (0usize, (i + 1) as usize, i as usize)
    } else {
        (0usize, i as usize, (i + 1) as usize)
    }
}

/// The fan triangles `1` up to, and not including, `n`.
pub open spec fn fan(points: Seq<Point>, n: int) -> Seq<Corners>
    decreases n,
{
    if n <= 1 {
        Seq::empty()
    } else {
        fan(points, n - 1).push(fan_triangle(points, n - 1))
    }
}

/// The points of the paved mesh: the boundary, then the interior lattice.
pub open spec fn paving_points(boundary: Seq<Point>, target_size: u64) -> Seq<Point> {
    boundary + interior_lattice(boundary, lattice_spacing_for(target_size, 64))
}

/// The quads of the paved mesh.
pub open spec fn paving_quads(boundary: Seq<Point>, target_size: u64) -> Seq<QuadCorners> {
    let b = bounding_box(boundary);
    let step = lattice_spacing_for(target_size, 64);
    let cols = steps_across(b.1 - b.0, step);
    let rows = steps_across(b.3 - b.2, step);
    grid_quads(paving_points(boundary, target_size), boundary.len() as int, cols, rows - 1)
}

/// The triangles of the paved mesh.
pub open spec fn paving_triangles(boundary: Seq<Point>, target_size: u64) -> Seq<Corners> {
    fan(paving_points(boundary, target_size), boundary.len() - 1)
}

/// A generator of paved meshes for one boundary.
pub struct PavingMeshGenerator {
    pub points: Vec<Point>,
    pub quads: Vec<Quad>,
    pub triangles: Vec<Triangle>,
}

impl PavingMeshGenerator {
    /// A generator for the boundary.
    pub fn new(boundary_points: Vec<Point>) -> (g: Self)
        ensures
            g.points@ == boundary_points@,
            g.quads@.len() == 0,
            g.triangles@.len() == 0,
    {
        Self { points: boundary_points, quads: Vec::new(), triangles: Vec::new() }
    }

    /// Paves the boundary: lays a square lattice inside it, joins
    /// neighbouring lattice points to quads, covers the boundary with a fan
    /// of triangles, and validates the outcome.  The boundary needs four
    /// points at least; with fewer nothing changes.  The lattice points are
    /// appended to the points, the new quads and triangles to those that
    /// the generator already holds, and the mesh is built from all of them.
    /// The generator can pave again afterwards.
    pub fn generate_mesh(&mut self, target_size: u64) -> (r: Result<Mesh, MeshError>)
        requires
            all_within(old(self).points@, COORD_LIMIT as int),
            forall|j: int|
                0 <= j < old(self).quads.len() ==> quad_in_bounds(
                    (#[trigger] old(self).quads[j]).corners(),
                    old(self).points.len() as int,
                ),
            forall|j: int|
                0 <= j < old(self).triangles.len() ==> corners_in_bounds(
                    (#[trigger] old(self).triangles[j]).corners(),
                    old(self).points.len() as int,
                ),
        ensures
            old(self).points.len() < 4 ==> {
                &&& r == Err::<Mesh, MeshError>(
                    MeshError::TooFewPoints { needed: 4, found: old(self).points.len() },
                )
                &&& final(self).points@ == old(self).points@
                &&& final(self).quads@ == old(self).quads@
                &&& final(self).triangles@ == old(self).triangles@
            },
            all_within(final(self).points@, COORD_LIMIT as int),
            forall|j: int|
                0 <= j < final(self).quads.len() ==> quad_in_bounds(
                    (#[trigger] final(self).quads[j]).corners(),
                    final(self).points.len() as int,
                ),
            forall|j: int|
                0 <= j < final(self).triangles.len() ==> corners_in_bounds(
                    (#[trigger] final(self).triangles[j]).corners(),
                    final(self).points.len() as int,
                ),
            old(self).points.len() >= 4 ==> {
                &&& final(self).points@ == paving_points(old(self).points@, target_size)
                &&& final(self).quads@.take(old(self).quads.len() as int) == old(self).quads@
                &&& final(self).triangles@.take(old(self).triangles.len() as int) == old(
                    self,
                ).triangles@
                &&& final(self).quads@.map_values(|q: Quad| q.corners()) == old(
                    self,
                ).quads@.map_values(|q: Quad| q.corners()) + paving_quads(
                    old(self).points@,
                    target_size,
                )
                &&& final(self).triangles@.map_values(|t: Triangle| t.corners()) == old(
                    self,
                ).triangles@.map_values(|t: Triangle| t.corners()) + paving_triangles(
                    old(self).points@,
                    target_size,
                )
                &&& match r {
                    Ok(mesh) => {
                        &&& mesh.vertices@ == final(self).points@
                        &&& mesh.tri_corners() == final(self).triangles@.map_values(
                            |t: Triangle| t.corners(),
                        )
                        &&& mesh.quad_corners() == final(self).quads@.map_values(
                            |q: Quad| q.corners(),
                        )
                        &&& mesh.triangles_denormalized()
                        &&& mesh.quads_denormalized()
                        &&& mesh.valid()
                    },
                    Err(e) => Err::<(), MeshError>(e) == paved_verdict(
                        final(self).points@,
                        final(self).triangles@.map_values(|t: Triangle| t.corners()),
                        final(self).quads@.map_values(|q: Quad| q.corners()),
                    ),
                }
            },
    {
        if self.points.len() < 4 {
            return Err(MeshError::TooFewPoints { needed: 4, found: self.points.len() });
        }
        let ghost boundary = self.points@;
        let ghost old_quads = self.quads@;
        let ghost old_triangles = self.triangles@;
        let ghost quads_before = self.quads@.map_values(|q: Quad| q.corners());
        let bounds = self.calculate_bounds();
        proof {
            lemma_bounding_box(boundary);
        }
        let (min_x, max_x, min_y, max_y) = bounds;
        let grid_size = lattice_spacing(target_size, 64);
        let grid_points = generate_interior_lattice(self.points.as_slice(), grid_size);
        let boundary_count = self.points.len();
        let mut k: usize = 0;
        while k < grid_points.len()
            invariant
                k <= grid_points.len(),
                all_within(grid_points@, COORD_LIMIT as int),
                all_within(self.points@, COORD_LIMIT as int),
                self.points@ == boundary + grid_points@.take(k as int),
                self.quads@ == old_quads,
                self.triangles@ == old_triangles,
            decreases grid_points.len() - k,
        {
            self.points.push(grid_points[k]);
            assert(self.points@ =~= boundary + grid_points@.take(k as int + 1));
            k += 1;
        }
        assert(grid_points@.take(grid_points.len() as int) =~= grid_points@);
        let ghost points = self.points@;
        let width: u64 = (max_x - min_x) as u64;
        let height: u64 = (max_y - min_y) as u64;
        let cols: u64 = if width % grid_size == 0 {
            width / grid_size
        } else {
            width / grid_size + 1
        };
        let rows: u64 = if height % grid_size == 0 {
            height / grid_size
        } else {
            height / grid_size + 1
        };
        assert(cols <= 2_000_000 && rows <= 2_000_000) by (nonlinear_arith)
            requires
                width <= 2_000_000,
                height <= 2_000_000,
                grid_size >= 1,
                cols <= width / grid_size + 1,
                rows <= height / grid_size + 1,
                width % grid_size == 0 ==> cols == width / grid_size,
                height % grid_size == 0 ==> rows == height / grid_size,
        ;
        let total: u128 = self.points.len() as u128;
        let mut row: u64 = 0;
        while row + 1 < rows
            invariant
                row <= rows <= 2_000_000,
                rows <= 1 ==> row == 0,
                rows >= 1 ==> row <= rows - 1,
                cols <= 2_000_000,
                self.points@ == points,
                total == points.len(),
                boundary_count <= points.len(),
                all_within(points, COORD_LIMIT as int),
                self.triangles@ == old_triangles,
                old_quads.len() <= self.quads.len(),
                self.quads@.take(old_quads.len() as int) == old_quads,
                self.quads@.map_values(|q: Quad| q.corners()) == quads_before + grid_quads(
                    points,
                    boundary_count as int,
                    cols as int,
                    row as int,
                ),
                forall|j: int|
                    0 <= j < self.quads.len() ==> quad_in_bounds(
                        (#[trigger] self.quads[j]).corners(),
                        points.len() as int,
                    ),
            decreases rows - row,
        {
            let ghost row_start = self.quads@.map_values(|q: Quad| q.corners());
            let mut col: u64 = 0;
            while col + 1 < cols
                invariant
                    row < rows <= 2_000_000,
                    col <= cols <= 2_000_000,
                    cols <= 1 ==> col == 0,
                    cols >= 1 ==> col <= cols - 1,
                    self.points@ == points,
                    total == points.len(),
                    boundary_count <= points.len(),
                    all_within(points, COORD_LIMIT as int),
                    self.triangles@ == old_triangles,
                    old_quads.len() <= self.quads.len(),
                    self.quads@.take(old_quads.len() as int) == old_quads,
                    self.quads@.map_values(|q: Quad| q.corners()) == row_start + row_quads(
                        points,
                        boundary_count as int,
                        cols as int,
                        row as int,
                        col as int,
                    ),
                    forall|j: int|
                        0 <= j < self.quads.len() ==> quad_in_bounds(
                            (#[trigger] self.quads[j]).corners(),
                            points.len() as int,
                        ),
                decreases cols - col,
            {
                assert(row * cols <= 2_000_000 * 2_000_000) by (nonlinear_arith)
                    requires
                        row <= 2_000_000,
                        cols <= 2_000_000,
                ;
                let base: u128 = boundary_count as u128 + (row as u128) * (cols as u128)
                    + col as u128;
                let ghost before = self.quads@.map_values(|q: Quad| q.corners());
                if base + cols as u128 + 1 < total {
                    let base_idx: usize = base as usize;
                    let span: usize = cols as usize;
                    if self.point_exists_and_inside(base_idx) && self.point_exists_and_inside(
                        base_idx + 1,
                    ) && self.point_exists_and_inside(base_idx + span)
                        && self.point_exists_and_inside(base_idx + span + 1) {
                        let mut vertices = [
                            base_idx,
                            base_idx + 1,
                            base_idx + span + 1,
                            base_idx + span,
                        ];
                        let quad = Quad::new(vertices);
                        proof {
                            crate::geometry::lemma_input_points_are_working_points(points);
                        }
                        if !quad.is_properly_oriented(self.points.as_slice()) {
                            vertices =
                            [base_idx, base_idx + span, base_idx + span + 1, base_idx + 1];
                        }
                        let corrected_quad = Quad::new(vertices);
                        let ghost held = self.quads@;
                        self.quads.push(corrected_quad);
                        assert(self.quads@.map_values(|q: Quad| q.corners()) =~= before.push(
                            corrected_quad.corners(),
                        ));
                        assert(self.quads@.take(old_quads.len() as int) =~= held.take(
                            old_quads.len() as int,
                        ));
                    }
                }
                col += 1;
            }
            assert(cols >= 1 ==> col == cols - 1);
            row += 1;
        }
        assert(rows >= 1 ==> row == rows - 1);
        proof {
            if rows == 0 {
                assert(grid_quads(points, boundary_count as int, cols as int, -1)
                    =~= Seq::<QuadCorners>::empty());
            }
            if cols == 0 {
                lemma_no_columns(points, boundary_count as int, row as int);
                lemma_no_columns(points, boundary_count as int, rows - 1);
            }
        }
        self.fill_boundary_with_triangles(boundary_count);
        let mesh = Mesh::new_with_quads(
            copy_points_of(&self.points),
            copy_triangles_of(&self.triangles),
            copy_quads(&self.quads),
        );
        match mesh.validate_jacobians() {
            Err(e) => Err(e),
            Ok(()) => Ok(mesh),
        }
    }

    /// The bounds of the points as `(min_x, max_x, min_y, max_y)`.
    fn calculate_bounds(&self) -> (b: (i64, i64, i64, i64))
        ensures
            b == bounding_box(self.points@),
    {
        DelaunayTriangulator::calculate_bounds(self.points.as_slice())
    }

    /// Ray-casting test of `point` against the polygon of all points.
    fn is_point_inside_polygon(&self, point: &Point) -> (r: bool)
        requires
            all_within(self.points@, EXTENT as int),
            point.within(EXTENT as int),
        ensures
            r == inside_polygon(self.points@, *point),
    {
        point_in_slice(self.points.as_slice(), point)
    }

    /// Whether `idx` names a point.
    fn point_exists_and_inside(&self, idx: usize) -> (r: bool)
        ensures
            r == (idx < self.points.len()),
    {
        idx < self.points.len()
    }

    /// Covers the boundary with a fan of triangles around its first point.
    fn fill_boundary_with_triangles(&mut self, boundary_count: usize)
        requires
            boundary_count <= old(self).points.len(),
            all_within(old(self).points@, COORD_LIMIT as int),
            forall|j: int|
                0 <= j < old(self).triangles.len() ==> corners_in_bounds(
                    (#[trigger] old(self).triangles[j]).corners(),
                    old(self).points.len() as int,
                ),
        ensures
            final(self).points@ == old(self).points@,
            final(self).quads@ == old(self).quads@,
            final(self).triangles@.take(old(self).triangles.len() as int) == old(
                self,
            ).triangles@,
            final(self).triangles@.map_values(|t: Triangle| t.corners()) == old(
                self,
            ).triangles@.map_values(|t: Triangle| t.corners()) + fan(
                old(self).points@,
                boundary_count - 1,
            ),
            forall|j: int|
                0 <= j < final(self).triangles.len() ==> corners_in_bounds(
                    (#[trigger] final(self).triangles[j]).corners(),
                    old(self).points.len() as int,
                ),
    {
        let ghost held = self.triangles@;
        let ghost corners_held = self.triangles@.map_values(|t: Triangle| t.corners());
        if boundary_count >= 3 {
            let mut i: usize = 1;
            assert(corners_held + fan(self.points@, 1) =~= corners_held);
            assert(held.take(held.len() as int) =~= held);
            while i < boundary_count - 1
                invariant
                    1 <= i <= boundary_count - 1,
                    boundary_count <= self.points.len(),
                    self.points@ == old(self).points@,
                    self.quads@ == old(self).quads@,
                    all_within(self.points@, COORD_LIMIT as int),
                    held.len() <= self.triangles.len(),
                    self.triangles@.take(held.len() as int) == held,
                    self.triangles@.map_values(|t: Triangle| t.corners()) == corners_held + fan(
                        self.points@,
                        i as int,
                    ),
                    forall|j: int|
                        0 <= j < self.triangles.len() ==> corners_in_bounds(
                            (#[trigger] self.triangles[j]).corners(),
                            self.points.len() as int,
                        ),
                decreases boundary_count - i,
            {
                proof {
                    crate::geometry::lemma_input_points_are_working_points(self.points@);
                }
                let mut vertices = [0, i, i + 1];
                let triangle = Triangle::new(vertices, self.points.as_slice());
                if triangle.jacobian(self.points.as_slice()) < 0 {
                    vertices = [0, i + 1, i];
                }
                let corrected_triangle = Triangle::new(vertices, self.points.as_slice());
                let ghost before = self.triangles@.map_values(|t: Triangle| t.corners());
                let ghost list = self.triangles@;
                self.triangles.push(corrected_triangle);
                assert(self.triangles@.map_values(|t: Triangle| t.corners()) =~= before.push(
                    corrected_triangle.corners(),
                ));
                assert(self.triangles@.take(held.len() as int) =~= list.take(held.len() as int));
                assert(corners_held + fan(self.points@, i as int + 1) =~= (corners_held + fan(
                    self.points@,
                    i as int,
                )).push(corrected_triangle.corners()));
                i += 1;
            }
        } else {
            assert(corners_held + fan(self.points@, boundary_count - 1) =~= corners_held);
            assert(held.take(held.len() as int) =~= held);
        }
    }
}

/// The verdict on a mesh of these elements: the fault of its first faulty
/// triangle, or else of its first faulty quad, or else success.
pub open spec fn paved_verdict(points: Seq<Point>, tris: Seq<Corners>, quads: Seq<QuadCorners>)
    -> Result<(), MeshError> {
    match first_triangle_fault(tris, points, tris.len() as int) {
        Some(e) => Err(e),
        None => match first_quad_fault(quads, points, quads.len() as int) {
            Some(e) => Err(e),
            None => Ok(()),
        },
    }
}

/// The verdict on the paved mesh of a boundary alone.
pub open spec fn paving_verdict(boundary: Seq<Point>, target_size: u64) -> Result<(), MeshError> {
    paved_verdict(
        paving_points(boundary, target_size),
        paving_triangles(boundary, target_size),
        paving_quads(boundary, target_size),
    )
}

/// A grid without columns has no quads.
pub proof fn lemma_no_columns(points: Seq<Point>, boundary_count: int, r: int)
    ensures
        grid_quads(points, boundary_count, 0, r) == Seq::<QuadCorners>::empty(),
    decreases r,
{
    if r > 0 {
        lemma_no_columns(points, boundary_count, r - 1);
        assert(row_quads(points, boundary_count, 0, r - 1, -1) =~= Seq::<QuadCorners>::empty());
        assert(grid_quads(points, boundary_count, 0, r) =~= Seq::<QuadCorners>::empty());
    }
}

/// A copy of a point list.
fn copy_points_of(points: &Vec<Point>) -> (copy: Vec<Point>)
    ensures
        copy@ == points@,
{
    crate::delaunay::copy_points(points)
}

/// A copy of a triangle list.
fn copy_triangles_of(triangles: &Vec<Triangle>) -> (copy: Vec<Triangle>)
    ensures
        copy@ == triangles@,
{
    crate::delaunay::copy_triangles(triangles)
}

/// A copy of a quad list.
pub fn copy_quads(quads: &Vec<Quad>) -> (copy: Vec<Quad>)
    ensures
        copy@ == quads@,
{
    let mut copy: Vec<Quad> = Vec::new();
    let mut i: usize = 0;
    while i < quads.len()
        invariant
            i <= quads.len(),
            copy@ == quads@.take(i as int),
        decreases quads.len() - i,
    {
        copy.push(quads[i]);
        assert(copy@ =~= quads@.take(i as int + 1));
        i += 1;
    }
    assert(quads@.take(quads.len() as int) =~= quads@);
    copy
}

} // verus!
