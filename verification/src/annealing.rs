//! Mesh optimisation by simulated annealing: relocating interior vertices
//! under a cooling temperature, and refining element sizes afterwards.
//!
//! The shape measures of a triangle, its least angle and its aspect ratio,
//! and the decision to keep a move that made the mesh worse come from
//! outside this module, as functions.  Their answers steer the search; what
//! is promised here holds whatever they answer.

use vstd::prelude::*;
use rand::rngs::ThreadRng;
use crate::delaunay::{
    centroid_of, copy_points, copy_triangles, corners_of, delaunay_corners,
    generate_interior_lattice, interior_lattice, triangles_from, triangulate_points,
};
use crate::elements::{corner, corners_in_bounds, corners_jacobian, Corners, Triangle};
use crate::geometry::{
    all_within, boundary_samples, centroid, inside_polygon, lemma_fraction_between,
    lemma_input_points_are_working_points, point_in_slice, subdivide_boundary, trunc_div,
    AnnealingOptions, Point, COORD_LIMIT, EXTENT,
};
use crate::sizing::{
    edge_length_for, lattice_spacing, lattice_spacing_for, target_edge_length,
};
use crate::mesh::{first_triangle_fault, Mesh, MeshError};
use crate::outside::{random_between, random_index, thread_generator};

verus! {

/// Annealing stops when the temperature, in thousandths, is no higher than
/// this: a tenth.
pub const FINAL_TEMPERATURE: u64 = 100;

/// The temperature at which annealing starts unless told otherwise: one
/// thousand, in thousandths.
pub const DEFAULT_TEMPERATURE: u64 = 1_000_000;

/// The cooling rate unless told otherwise: 0.995, in thousandths.
pub const DEFAULT_COOLING_RATE: u64 = 995;

/// The number of annealing steps unless told otherwise.
pub const DEFAULT_ITERATIONS: u32 = 10000;

/// The temperature after one step of cooling: multiplied by the rate, both
/// in thousandths, rounded down and capped at the largest machine value.
pub open spec fn cooled(temperature: u64, cooling_rate: u64) -> u64 {
    if (temperature * cooling_rate) / 1000 > u64::MAX {
        u64::MAX
    } else {
        ((temperature * cooling_rate) / 1000) as u64
    }
}

/// Computes the temperature after one step of cooling.
pub fn cool(temperature: u64, cooling_rate: u64) -> (t: u64)
    ensures
        t == cooled(temperature, cooling_rate),
{
    assert(temperature * cooling_rate <= 0xffff_ffff_ffff_ffff * 0xffff_ffff_ffff_ffff)
        by (nonlinear_arith)
        requires
            temperature <= 0xffff_ffff_ffff_ffff,
            cooling_rate <= 0xffff_ffff_ffff_ffff,
    ;
    let product: u128 = (temperature as u128) * (cooling_rate as u128) / 1000;
    if product > u64::MAX as u128 {
        u64::MAX
    } else {
        product as u64
    }
}

/// How far a vertex may be displaced along each axis at a temperature: the
/// temperature times `1 / divisor`, in grid units, capped at the width of the
/// input range.
pub open spec fn displacement_radius(temperature: u64, divisor: u64) -> i64 {
    if (temperature as int) / (1000 * divisor) > 2 * COORD_LIMIT {
        (2 * COORD_LIMIT) as i64
    } else {
        ((temperature as int) / (1000 * divisor)) as i64
    }
}

/// Computes the displacement radius at a temperature.
pub fn radius_at(temperature: u64, divisor: u64) -> (r: i64)
    requires
        1 <= divisor <= 1000,
    ensures
        r == displacement_radius(temperature, divisor),
        0 <= r <= 2 * COORD_LIMIT,
{
    let r: u64 = temperature / (1000 * divisor);
    if r > 2_000_000 {
        2_000_000
    } else {
        r as i64
    }
}

/// The sum of the worths of the triangles with a positive Jacobian among the
/// first `n`, and the number of these triangles.
pub open spec fn worth_sums(points: Seq<Point>, tris: Seq<Corners>, worths: Seq<u64>, n: int) -> (
    int,
    int,
)
    decreases n,
{
    if n <= 0 {
        (0, 0)
    } else {
        let before = worth_sums(points, tris, worths, n - 1);
        if corners_jacobian(tris[n - 1], points) > 0 {
            (before.0 + worths[n - 1], before.1 + 1)
        } else {
            before
        }
    }
}

/// The mean worth of the triangles with a positive Jacobian, rounded down
/// and capped at the largest machine value; zero when there is no such
/// triangle.
pub open spec fn mean_worth(points: Seq<Point>, tris: Seq<Corners>, worths: Seq<u64>) -> int {
    let sums = worth_sums(points, tris, worths, tris.len() as int);
    if sums.1 == 0 {
        0
    } else if sums.0 / sums.1 > i64::MAX {
        i64::MAX as int
    } else {
        sums.0 / sums.1
    }
}

/// `worths` holds, for each triangle, what `quality` gives for its three
/// corner points.
pub open spec fn gives_worths<Q: Fn(&Point, &Point, &Point) -> u64>(
    points: Seq<Point>,
    tris: Seq<Corners>,
    worths: Seq<u64>,
    quality: Q,
) -> bool {
    &&& worths.len() == tris.len()
    &&& forall|i: int|
        0 <= i < tris.len() ==> quality.ensures(
            (&points[tris[i].0 as int], &points[tris[i].1 as int], &points[tris[i].2 as int]),
            #[trigger] worths[i],
        )
}

/// Asks `quality` for the worth of every triangle.
pub fn collect_worths<Q: Fn(&Point, &Point, &Point) -> u64>(
    points: &[Point],
    triangles: &Vec<Triangle>,
    quality: &Q,
) -> (worths: Vec<u64>)
    requires
        forall|i: int|
            0 <= i < triangles.len() ==> corners_in_bounds(
                (#[trigger] triangles[i]).corners(),
                points.len() as int,
            ),
        forall|a: &Point, b: &Point, c: &Point| quality.requires((a, b, c)),
    ensures
        gives_worths(points@, corners_of(triangles@), worths@, *quality),
{
    let mut worths: Vec<u64> = Vec::new();
    let mut i: usize = 0;
    let ghost tris = corners_of(triangles@);
    while i < triangles.len()
        invariant
            i <= triangles.len(),
            tris == corners_of(triangles@),
            forall|k: int|
                0 <= k < triangles.len() ==> corners_in_bounds(
                    (#[trigger] triangles[k]).corners(),
                    points.len() as int,
                ),
            forall|a: &Point, b: &Point, c: &Point| quality.requires((a, b, c)),
            worths.len() == i,
            forall|k: int|
                0 <= k < i ==> quality.ensures(
                    (
                        &points@[tris[k].0 as int],
                        &points@[tris[k].1 as int],
                        &points@[tris[k].2 as int],
                    ),
                    #[trigger] worths[k],
                ),
        decreases triangles.len() - i,
    {
        let t = &triangles[i];
        assert(corners_in_bounds(t.corners(), points.len() as int));
        assert(tris[i as int] == t.corners());
        let w = quality(&points[t.vertices[0]], &points[t.vertices[1]], &points[t.vertices[2]]);
        worths.push(w);
        i += 1;
    }
    worths
}

/// The mean of the worths of the triangles with a positive Jacobian.
pub fn mean_valid_worth(points: &[Point], triangles: &Vec<Triangle>, worths: &[u64]) -> (q: i64)
    requires
        worths.len() == triangles.len(),
        all_within(points@, EXTENT as int),
        forall|i: int|
            0 <= i < triangles.len() ==> corners_in_bounds(
                (#[trigger] triangles[i]).corners(),
                points.len() as int,
            ),
    ensures
        q == mean_worth(points@, corners_of(triangles@), worths@),
{
    let ghost tris = corners_of(triangles@);
    let mut total_quality: u128 = 0;
    let mut valid_triangles: u128 = 0;
    let mut i: usize = 0;
    while i < triangles.len()
        invariant
            i <= triangles.len(),
            worths.len() == triangles.len(),
            tris == corners_of(triangles@),
            all_within(points@, EXTENT as int),
            forall|k: int|
                0 <= k < triangles.len() ==> corners_in_bounds(
                    (#[trigger] triangles[k]).corners(),
                    points.len() as int,
                ),
            (total_quality as int, valid_triangles as int) == worth_sums(
                points@,
                tris,
                worths@,
                i as int,
            ),
            valid_triangles <= i,
            total_quality <= i * 0xffff_ffff_ffff_ffff,
        decreases triangles.len() - i,
    {
        let t = &triangles[i];
        assert(corners_in_bounds(t.corners(), points.len() as int));
        assert(tris[i as int] == t.corners());
        if t.jacobian(points) > 0 {
            total_quality = total_quality + worths[i] as u128;
            valid_triangles = valid_triangles + 1;
        }
        i += 1;
    }
    if valid_triangles > 0 {
        let mean: u128 = total_quality / valid_triangles;
        if mean > i64::MAX as u128 {
            i64::MAX
        } else {
            mean as i64
        }
    } else {
        0
    }
}

/// A proposal to move a point: the index of a point from `free_from` on, and
/// a target that lies no farther than `radius` from the point along each
/// axis.
pub open spec fn is_proposal(
    points: Seq<Point>,
    free_from: int,
    radius: int,
    index: int,
    target: Point,
) -> bool {
    &&& free_from <= index < points.len()
    &&& -radius <= target.x - points[index].x <= radius
    &&& -radius <= target.y - points[index].y <= radius
}

/// Whether a move stays, for a mesh of the points and triangles after the
/// move with the worths that `quality` gives: it stays if the quality of the
/// mesh is higher than the quality before, and else if `accept_worse`, asked
/// with the quality before and after and the temperature, says so.
pub open spec fn grid_move_judged<Q: Fn(&Point, &Point, &Point) -> u64, A: Fn(i64, i64, u64) -> bool>(
    quality: Q,
    accept_worse: A,
    temperature: u64,
    current_quality: i64,
    points: Seq<Point>,
    tris: Seq<Corners>,
    worths: Seq<u64>,
    kept: bool,
) -> bool {
    &&& gives_worths(points, tris, worths, quality)
    &&& if mean_worth(points, tris, worths) > current_quality {
        kept
    } else {
        accept_worse.ensures(
            (current_quality, mean_worth(points, tris, worths) as i64, temperature),
            kept,
        )
    }
}

/// What a proposal to move interior point `index` to `target` leads to, from
/// the interior points and triangles `internal`, `tris`.  If the target lies
/// outside the input range or outside the boundary, nothing changes; if
/// not, the point is moved and all points are triangulated, and then the
/// point is at the target if the move stays and back where it was if not,
/// and the triangles are the triangulation of all points.
pub open spec fn grid_move_outcome<
    Q: Fn(&Point, &Point, &Point) -> u64,
    A: Fn(i64, i64, u64) -> bool,
>(
    quality: Q,
    accept_worse: A,
    temperature: u64,
    current_quality: i64,
    boundary: Seq<Point>,
    internal: Seq<Point>,
    tris: Seq<Corners>,
    index: int,
    target: Point,
    next_internal: Seq<Point>,
    next_tris: Seq<Corners>,
) -> bool {
    if target.within(COORD_LIMIT as int) && inside_polygon(boundary, target) {
        &&& next_tris == delaunay_corners(boundary + next_internal)
        &&& exists|worths: Seq<u64>, kept: bool| #[trigger]
            grid_move_judged(
                quality,
                accept_worse,
                temperature,
                current_quality,
                boundary + internal.update(index, target),
                delaunay_corners(boundary + internal.update(index, target)),
                worths,
                kept,
            ) && next_internal == if kept {
                internal.update(index, target)
            } else {
                internal
            }
    } else {
        next_internal == internal && next_tris == tris
    }
}

/// One step of grid annealing leads from the interior points and triangles
/// `internal`, `tris` to `next_internal`, `next_tris`.  Without interior
/// points nothing changes.  Else the step is the outcome of some proposal:
/// see [`grid_move_outcome`].
pub open spec fn grid_step<Q: Fn(&Point, &Point, &Point) -> u64, A: Fn(i64, i64, u64) -> bool>(
    quality: Q,
    accept_worse: A,
    temperature: u64,
    current_quality: i64,
    boundary: Seq<Point>,
    radius: int,
    internal: Seq<Point>,
    tris: Seq<Corners>,
    next_internal: Seq<Point>,
    next_tris: Seq<Corners>,
) -> bool {
    if internal.len() == 0 {
        next_internal == internal && next_tris == tris
    } else {
        exists|index: int, target: Point| #[trigger]
            is_proposal(internal, 0, radius, index, target) && grid_move_outcome(
                quality,
                accept_worse,
                temperature,
                current_quality,
                boundary,
                internal,
                tris,
                index,
                target,
                next_internal,
                next_tris,
            )
    }
}

/// Grid annealing at `temperature` with a budget of `budget` steps leads
/// from the interior points and triangles `internal`, `tris` to
/// `last_internal`, `last_tris`.  It ends where it stands when the budget is
/// spent, when the temperature is a tenth or less, or when the quality of
/// the mesh, with the worths that `quality` gives, exceeds the threshold;
/// else it takes one step and goes on at the cooled temperature.
pub open spec fn grid_anneals_to<Q: Fn(&Point, &Point, &Point) -> u64, A: Fn(i64, i64, u64) -> bool>(
    quality: Q,
    accept_worse: A,
    threshold: i64,
    boundary: Seq<Point>,
    cooling_rate: u64,
    temperature: u64,
    budget: nat,
    internal: Seq<Point>,
    tris: Seq<Corners>,
    last_internal: Seq<Point>,
    last_tris: Seq<Corners>,
) -> bool
    decreases budget,
{
    if budget == 0 || temperature <= FINAL_TEMPERATURE {
        last_internal == internal && last_tris == tris
    } else {
        exists|worths: Seq<u64>| #[trigger]
            gives_worths(boundary + internal, tris, worths, quality) && if mean_worth(
                boundary + internal,
                tris,
                worths,
            ) > threshold {
                last_internal == internal && last_tris == tris
            } else {
                exists|mid_internal: Seq<Point>, mid_tris: Seq<Corners>| #[trigger]
                    grid_step(
                        quality,
                        accept_worse,
                        temperature,
                        mean_worth(boundary + internal, tris, worths) as i64,
                        boundary,
                        displacement_radius(temperature, 10) as int,
                        internal,
                        tris,
                        mid_internal,
                        mid_tris,
                    ) && grid_anneals_to(
                        quality,
                        accept_worse,
                        threshold,
                        boundary,
                        cooling_rate,
                        cooled(temperature, cooling_rate),
                        (budget - 1) as nat,
                        mid_internal,
                        mid_tris,
                        last_internal,
                        last_tris,
                    )
            }
    }
}

/// A mesh generator that seeds the inside of a boundary with a square
/// lattice, triangulates, and then anneals the lattice points.
pub struct GridAnnealingMeshGenerator {
    pub boundary_points: Vec<Point>,
    pub internal_points: Vec<Point>,
    pub triangles: Vec<Triangle>,
    pub rng: ThreadRng,
    /// Quality, in millionths, beyond which annealing stops early.
    pub quality_threshold: i64,
    /// Starting temperature, in thousandths.
    pub temperature: u64,
    /// Factor by which the temperature shrinks each step, in thousandths.
    pub cooling_rate: u64,
}

impl GridAnnealingMeshGenerator {
    /// All points: the boundary, then the interior.
    pub open spec fn all_points(self) -> Seq<Point> {
        self.boundary_points@ + self.internal_points@
    }

    /// Every point lies in the input range.
    pub open spec fn in_range(self) -> bool {
        all_within(self.boundary_points@, COORD_LIMIT as int) && all_within(
            self.internal_points@,
            COORD_LIMIT as int,
        )
    }

    /// The triangles are the triangulation of the current points.
    pub open spec fn triangulated(self) -> bool {
        &&& corners_of(self.triangles@) == delaunay_corners(self.all_points())
        &&& forall|i: int|
            0 <= i < self.triangles.len() ==> (#[trigger] self.triangles[i]).wf(self.all_points())
    }

    /// A generator for the boundary with the default temperature and cooling
    /// rate.
    pub fn new(boundary_points: Vec<Point>, quality_threshold: i64) -> (g: Self)
        ensures
            g.boundary_points@ == boundary_points@,
            g.internal_points@.len() == 0,
            g.triangles@.len() == 0,
            g.quality_threshold == quality_threshold,
            g.temperature == DEFAULT_TEMPERATURE,
            g.cooling_rate == DEFAULT_COOLING_RATE,
    {
        Self {
            boundary_points,
            internal_points: Vec::new(),
            triangles: Vec::new(),
            rng: thread_generator(),
            quality_threshold,
            temperature: DEFAULT_TEMPERATURE,
            cooling_rate: DEFAULT_COOLING_RATE,
        }
    }

    /// A generator for the boundary with the given annealing schedule.
    pub fn with_options(
        boundary_points: Vec<Point>,
        temperature: u64,
        cooling_rate: u64,
        quality_threshold: i64,
    ) -> (g: Self)
        ensures
            g.boundary_points@ == boundary_points@,
            g.internal_points@.len() == 0,
            g.triangles@.len() == 0,
            g.quality_threshold == quality_threshold,
            g.temperature == temperature,
            g.cooling_rate == cooling_rate,
    {
        Self {
            boundary_points,
            internal_points: Vec::new(),
            triangles: Vec::new(),
            rng: thread_generator(),
            quality_threshold,
            temperature,
            cooling_rate,
        }
    }

    /// Cuts every boundary edge that is longer than the edge length of the
    /// target area into even pieces.
    fn refine_boundary_points(&mut self, target_area: u64) -> (r: Result<(), MeshError>)
        requires
            old(self).in_range(),
        ensures
            r is Ok,
            final(self).boundary_points@ == boundary_samples(
                old(self).boundary_points@,
                edge_length_for(target_area),
                old(self).boundary_points.len() as int,
            ),
            final(self).boundary_points.len() >= old(self).boundary_points.len(),
            final(self).internal_points@ == old(self).internal_points@,
            final(self).triangles@ == old(self).triangles@,
            final(self).quality_threshold == old(self).quality_threshold,
            final(self).temperature == old(self).temperature,
            final(self).cooling_rate == old(self).cooling_rate,
            final(self).in_range(),
    {
        let target_edge_length = target_edge_length(target_area);
        proof {
            lemma_input_points_are_working_points(self.boundary_points@);
        }
        let refined_points = subdivide_boundary(self.boundary_points.as_slice(), target_edge_length);
        self.boundary_points = refined_points;
        Ok(())
    }

    /// Adds the points of a square lattice that lie inside the boundary.
    fn generate_internal_grid(&mut self, target_area: u64) -> (r: Result<(), MeshError>)
        requires
            old(self).in_range(),
        ensures
            r is Ok,
            final(self).internal_points@ == old(self).internal_points@ + interior_lattice(
                old(self).boundary_points@,
                lattice_spacing_for(target_area, 49),
            ),
            final(self).boundary_points@ == old(self).boundary_points@,
            final(self).triangles@ == old(self).triangles@,
            final(self).quality_threshold == old(self).quality_threshold,
            final(self).temperature == old(self).temperature,
            final(self).cooling_rate == old(self).cooling_rate,
            final(self).in_range(),
    {
        let grid_spacing = lattice_spacing(target_area, 49);
        let grid = generate_interior_lattice(self.boundary_points.as_slice(), grid_spacing);
        let ghost before = self.internal_points@;
        let mut k: usize = 0;
        while k < grid.len()
            invariant
                k <= grid.len(),
                all_within(grid@, COORD_LIMIT as int),
                all_within(self.internal_points@, COORD_LIMIT as int),
                self.internal_points@ == before + grid@.take(k as int),
                self.boundary_points@ == old(self).boundary_points@,
                self.triangles@ == old(self).triangles@,
                self.quality_threshold == old(self).quality_threshold,
                self.temperature == old(self).temperature,
                self.cooling_rate == old(self).cooling_rate,
            decreases grid.len() - k,
        {
            self.internal_points.push(grid[k]);
            assert(self.internal_points@ =~= before + grid@.take(k as int + 1));
            k += 1;
        }
        assert(grid@.take(grid.len() as int) =~= grid@);
        Ok(())
    }

    /// The boundary followed by the interior, as one list.
    fn collect_points(&self) -> (all: Vec<Point>)
        ensures
            all@ == self.all_points(),
    {
        let mut all = copy_points(&self.boundary_points);
        let ghost head = all@;
        let mut k: usize = 0;
        while k < self.internal_points.len()
            invariant
                k <= self.internal_points.len(),
                all@ == head + self.internal_points@.take(k as int),
            decreases self.internal_points.len() - k,
        {
            all.push(self.internal_points[k]);
            assert(all@ =~= head + self.internal_points@.take(k as int + 1));
            k += 1;
        }
        assert(self.internal_points@.take(self.internal_points.len() as int)
            =~= self.internal_points@);
        all
    }

    /// Triangulates the boundary and the interior points together.
    fn create_initial_triangulation(&mut self) -> (r: Result<(), MeshError>)
        requires
            old(self).in_range(),
        ensures
            r is Ok,
            final(self).boundary_points@ == old(self).boundary_points@,
            final(self).internal_points@ == old(self).internal_points@,
            final(self).quality_threshold == old(self).quality_threshold,
            final(self).temperature == old(self).temperature,
            final(self).cooling_rate == old(self).cooling_rate,
            final(self).triangulated(),
    {
        self.update_triangulation_after_move(0)
    }

    /// Triangulates all points again after one of them has moved.
    fn update_triangulation_after_move(&mut self, _moved_point_idx: usize) -> (r: Result<
        (),
        MeshError,
    >)
        requires
            old(self).in_range(),
        ensures
            r is Ok,
            final(self).boundary_points@ == old(self).boundary_points@,
            final(self).internal_points@ == old(self).internal_points@,
            final(self).quality_threshold == old(self).quality_threshold,
            final(self).temperature == old(self).temperature,
            final(self).cooling_rate == old(self).cooling_rate,
            final(self).triangulated(),
    {
        let all_points = self.collect_points();
        assert(all_within(all_points@, COORD_LIMIT as int)) by {
            assert forall|i: int| 0 <= i < all_points@.len() implies (
            #[trigger] all_points@[i]).within(COORD_LIMIT as int) by {
                if i < self.boundary_points@.len() {
                    assert(self.boundary_points@[i].within(COORD_LIMIT as int));
                } else {
                    assert(self.internal_points@[i - self.boundary_points@.len()].within(
                        COORD_LIMIT as int,
                    ));
                }
            }
        }
        let mesh = triangulate_points(all_points);
        proof {
            lemma_input_points_are_working_points(mesh.vertices@);
        }
        self.triangles = triangles_from(&mesh);
        Ok(())
    }

    /// The bounds of the boundary as `(min_x, max_x, min_y, max_y)`.
    fn calculate_bounds(&self) -> (b: (i64, i64, i64, i64))
        ensures
            b == crate::delaunay::bounding_box(self.boundary_points@),
    {
        crate::delaunay::DelaunayTriangulator::calculate_bounds(self.boundary_points.as_slice())
    }

    /// Ray-casting test of `point` against the boundary.
    fn is_point_inside_polygon(&self, point: &Point) -> (r: bool)
        requires
            all_within(self.boundary_points@, COORD_LIMIT as int),
            point.within(EXTENT as int),
        ensures
            r == inside_polygon(self.boundary_points@, *point),
    {
        proof {
            lemma_input_points_are_working_points(self.boundary_points@);
        }
        point_in_slice(self.boundary_points.as_slice(), point)
    }

    /// Every triangle names three of the points.
    pub open spec fn indexed(self) -> bool {
        forall|i: int|
            0 <= i < self.triangles.len() ==> corners_in_bounds(
                (#[trigger] self.triangles[i]).corners(),
                self.all_points().len() as int,
            )
    }

    /// The quality of the mesh: the mean, over the triangles with a positive
    /// Jacobian, of what `quality` gives for their three corner points, in
    /// millionths; zero for a mesh without such a triangle.
    pub fn calculate_mesh_quality<Q: Fn(&Point, &Point, &Point) -> u64>(&self, quality: &Q) -> (q:
        i64)
        requires
            self.in_range(),
            self.indexed(),
            forall|a: &Point, b: &Point, c: &Point| quality.requires((a, b, c)),
        ensures
            exists|worths: Seq<u64>| #[trigger]
                gives_worths(self.all_points(), corners_of(self.triangles@), worths, *quality)
                    && q == mean_worth(self.all_points(), corners_of(self.triangles@), worths),
    {
        let all_points = self.collect_points();
        proof {
            lemma_input_points_are_working_points(self.boundary_points@);
            lemma_input_points_are_working_points(self.internal_points@);
            assert forall|i: int| 0 <= i < all_points@.len() implies (#[trigger] all_points@[i]).within(
                EXTENT as int,
            ) by {
                if i < self.boundary_points@.len() {
                    assert(self.boundary_points@[i].within(EXTENT as int));
                } else {
                    assert(self.internal_points@[i - self.boundary_points@.len()].within(
                        EXTENT as int,
                    ));
                }
            }
        }
        let worths = collect_worths(all_points.as_slice(), &self.triangles, quality);
        mean_valid_worth(all_points.as_slice(), &self.triangles, worths.as_slice())
    }

    /// Moves interior point `point_idx` to `new_point` and triangulates
    /// again, if the new position lies in the input range and inside the
    /// boundary; otherwise nothing changes.
    pub fn try_move(&mut self, point_idx: usize, new_point: Point) -> (moved: bool)
        requires
            old(self).in_range(),
            point_idx < old(self).internal_points.len(),
        ensures
            moved == (new_point.within(COORD_LIMIT as int) && inside_polygon(
                old(self).boundary_points@,
                new_point,
            )),
            moved ==> final(self).internal_points@ == old(self).internal_points@.update(
                point_idx as int,
                new_point,
            ) && final(self).triangulated(),
            !moved ==> final(self).internal_points@ == old(self).internal_points@
                && final(self).triangles@ == old(self).triangles@,
            final(self).boundary_points@ == old(self).boundary_points@,
            final(self).quality_threshold == old(self).quality_threshold,
            final(self).temperature == old(self).temperature,
            final(self).cooling_rate == old(self).cooling_rate,
            final(self).in_range(),
    {
        if new_point.is_within(COORD_LIMIT) && self.is_point_inside_polygon(&new_point) {
            self.put(point_idx, new_point);
            true
        } else {
            false
        }
    }

    /// Puts interior point `point_idx` at `point` and triangulates again.
    pub fn put(&mut self, point_idx: usize, point: Point)
        requires
            old(self).in_range(),
            point_idx < old(self).internal_points.len(),
            point.within(COORD_LIMIT as int),
        ensures
            final(self).internal_points@ == old(self).internal_points@.update(
                point_idx as int,
                point,
            ),
            final(self).boundary_points@ == old(self).boundary_points@,
            final(self).quality_threshold == old(self).quality_threshold,
            final(self).temperature == old(self).temperature,
            final(self).cooling_rate == old(self).cooling_rate,
            final(self).triangulated(),
            final(self).in_range(),
    {
        self.internal_points.set(point_idx, point);
        let _ = self.update_triangulation_after_move(point_idx);
    }

    /// Whether `vertex` coincides with a boundary point.
    fn is_boundary_vertex(&self, vertex: &Point) -> (r: bool)
        requires
            all_within(self.boundary_points@, COORD_LIMIT as int),
            vertex.within(EXTENT as int),
        ensures
            r == near_boundary(self.boundary_points@, *vertex),
    {
        proof {
            lemma_input_points_are_working_points(self.boundary_points@);
        }
        is_near_boundary(self.boundary_points.as_slice(), vertex)
    }

    /// Carries out the proposal to move interior point `point_idx` to
    /// `new_point`, at a temperature and for a mesh of the given quality:
    /// moves the point if the target lies in the input range and inside the
    /// boundary, triangulates, and puts the point back if the move does not
    /// stay.  Says whether the point is now at the target because the move
    /// stayed.
    pub fn propose_move<Q: Fn(&Point, &Point, &Point) -> u64, A: Fn(i64, i64, u64) -> bool>(
        &mut self,
        point_idx: usize,
        new_point: Point,
        temperature: u64,
        current_quality: i64,
        quality: &Q,
        accept_worse: &A,
    ) -> (kept: bool)
        requires
            old(self).in_range(),
            old(self).indexed(),
            point_idx < old(self).internal_points.len(),
            forall|a: &Point, b: &Point, c: &Point| quality.requires((a, b, c)),
            forall|before: i64, after: i64, t: u64| accept_worse.requires((before, after, t)),
        ensures
            final(self).in_range(),
            final(self).indexed(),
            final(self).boundary_points@ == old(self).boundary_points@,
            final(self).quality_threshold == old(self).quality_threshold,
            final(self).temperature == old(self).temperature,
            final(self).cooling_rate == old(self).cooling_rate,
            final(self).internal_points@ == if kept {
                old(self).internal_points@.update(point_idx as int, new_point)
            } else {
                old(self).internal_points@
            },
            kept ==> new_point.within(COORD_LIMIT as int) && inside_polygon(
                old(self).boundary_points@,
                new_point,
            ),
            new_point.within(COORD_LIMIT as int) && inside_polygon(
                old(self).boundary_points@,
                new_point,
            ) ==> final(self).triangulated(),
            !(new_point.within(COORD_LIMIT as int) && inside_polygon(
                old(self).boundary_points@,
                new_point,
            )) ==> final(self).triangles@ == old(self).triangles@,
            grid_move_outcome(
                *quality,
                *accept_worse,
                temperature,
                current_quality,
                old(self).boundary_points@,
                old(self).internal_points@,
                corners_of(old(self).triangles@),
                point_idx as int,
                new_point,
                final(self).internal_points@,
                corners_of(final(self).triangles@),
            ),
    {
        let ghost boundary = self.boundary_points@;
        let ghost internal = self.internal_points@;
        let old_point = self.internal_points[point_idx];
        assert(old_point.within(COORD_LIMIT as int));
        if self.try_move(point_idx, new_point) {
            let ghost moved = self.internal_points@;
            let ghost moved_tris = corners_of(self.triangles@);
            let new_quality = self.calculate_mesh_quality(quality);
            let ghost moved_worths = choose|w: Seq<u64>| #[trigger]
                gives_worths(boundary + moved, moved_tris, w, *quality) && new_quality
                    == mean_worth(boundary + moved, moved_tris, w);
            let keep = if new_quality > current_quality {
                true
            } else {
                accept_worse(current_quality, new_quality, temperature)
            };
            proof {
                assert(moved == internal.update(point_idx as int, new_point));
                assert(moved_tris == delaunay_corners(boundary + moved));
                assert(grid_move_judged(
                    *quality,
                    *accept_worse,
                    temperature,
                    current_quality,
                    boundary + moved,
                    moved_tris,
                    moved_worths,
                    keep,
                ));
            }
            if !keep {
                self.put(point_idx, old_point);
                assert(self.internal_points@ =~= internal);
            }
            keep
        } else {
            false
        }
    }

    /// Takes one step of annealing at a temperature, for a mesh of the given
    /// quality: draws an interior point and a displacement and carries out
    /// the proposal.
    fn take_step<Q: Fn(&Point, &Point, &Point) -> u64, A: Fn(i64, i64, u64) -> bool>(
        &mut self,
        temperature: u64,
        current_quality: i64,
        quality: &Q,
        accept_worse: &A,
    )
        requires
            old(self).in_range(),
            old(self).indexed(),
            forall|a: &Point, b: &Point, c: &Point| quality.requires((a, b, c)),
            forall|before: i64, after: i64, t: u64| accept_worse.requires((before, after, t)),
        ensures
            final(self).in_range(),
            final(self).indexed(),
            final(self).boundary_points@ == old(self).boundary_points@,
            final(self).internal_points.len() == old(self).internal_points.len(),
            final(self).quality_threshold == old(self).quality_threshold,
            final(self).temperature == old(self).temperature,
            final(self).cooling_rate == old(self).cooling_rate,
            forall|i: int|
                0 <= i < final(self).internal_points.len() ==> (
                #[trigger] final(self).internal_points[i]) == old(self).internal_points[i]
                    || inside_polygon(
                    old(self).boundary_points@,
                    final(self).internal_points[i],
                ),
            final(self).triangulated() || (final(self).internal_points@
                == old(self).internal_points@ && final(self).triangles@ == old(self).triangles@),
            old(self).internal_points.len() == 0 ==> final(self).internal_points@
                == old(self).internal_points@ && final(self).triangles@ == old(self).triangles@,
            grid_step(
                *quality,
                *accept_worse,
                temperature,
                current_quality,
                old(self).boundary_points@,
                displacement_radius(temperature, 10) as int,
                old(self).internal_points@,
                corners_of(old(self).triangles@),
                final(self).internal_points@,
                corners_of(final(self).triangles@),
            ),
    {
        let ghost internal = self.internal_points@;
        let ghost radius = displacement_radius(temperature, 10) as int;
        if self.internal_points.len() > 0 {
            let point_idx = random_index(&mut self.rng, 0, self.internal_points.len());
            let old_point = self.internal_points[point_idx];
            assert(old_point.within(COORD_LIMIT as int));
            let perturbation_radius = radius_at(temperature, 10);
            let dx = random_between(&mut self.rng, -perturbation_radius, perturbation_radius);
            let dy = random_between(&mut self.rng, -perturbation_radius, perturbation_radius);
            let new_point = Point::new(old_point.x + dx, old_point.y + dy);
            assert(is_proposal(internal, 0, radius, point_idx as int, new_point));
            let _ = self.propose_move(
                point_idx,
                new_point,
                temperature,
                current_quality,
                quality,
                accept_worse,
            );
        }
    }

    /// Anneals the interior points.  Each step picks one interior point at
    /// random and proposes to displace it by a random amount of at most a
    /// tenth of the temperature along each axis.  A proposal that leaves the
    /// boundary is dropped.  Otherwise the point is moved and everything is
    /// triangulated again; the move stays if the quality of the mesh is
    /// higher than before or if `accept_worse`, given the quality before and
    /// after and the temperature, says so, and else the point is put back
    /// and everything is triangulated once more.  The quality of the mesh is
    /// the mean of what `quality` gives for its positive triangles.  The
    /// temperature shrinks by the cooling rate after every step.  Annealing
    /// ends after `max_iterations` steps, when the temperature is a tenth or
    /// less, or as soon as the quality exceeds the threshold.
    ///
    /// The outcome is that of the steps taken one after the other.  Whatever
    /// the two functions and the random numbers are: the boundary stays as
    /// it is, no point is added or removed, every point that is not where it
    /// was lies inside the boundary, and unless nothing has moved the
    /// triangles are the triangulation of the points.
    pub fn optimize_with_annealing<
        Q: Fn(&Point, &Point, &Point) -> u64,
        A: Fn(i64, i64, u64) -> bool,
    >(&mut self, max_iterations: u32, quality: &Q, accept_worse: &A) -> (r: Result<(), MeshError>)
        requires
            old(self).in_range(),
            old(self).indexed(),
            forall|a: &Point, b: &Point, c: &Point| quality.requires((a, b, c)),
            forall|before: i64, after: i64, t: u64| accept_worse.requires((before, after, t)),
        ensures
            r is Ok,
            final(self).indexed(),
            final(self).boundary_points@ == old(self).boundary_points@,
            final(self).internal_points.len() == old(self).internal_points.len(),
            final(self).in_range(),
            final(self).quality_threshold == old(self).quality_threshold,
            final(self).temperature == old(self).temperature,
            final(self).cooling_rate == old(self).cooling_rate,
            forall|i: int|
                0 <= i < final(self).internal_points.len() ==> (
                #[trigger] final(self).internal_points[i]) == old(self).internal_points[i]
                    || inside_polygon(
                    old(self).boundary_points@,
                    final(self).internal_points[i],
                ),
            final(self).triangulated() || (final(self).internal_points@
                == old(self).internal_points@ && final(self).triangles@ == old(self).triangles@),
            old(self).triangulated() ==> final(self).triangulated(),
            max_iterations == 0 || old(self).temperature <= FINAL_TEMPERATURE
                || old(self).internal_points.len() == 0 ==> final(self).internal_points@
                == old(self).internal_points@ && final(self).triangles@ == old(self).triangles@,
            grid_anneals_to(
                *quality,
                *accept_worse,
                old(self).quality_threshold,
                old(self).boundary_points@,
                old(self).cooling_rate,
                old(self).temperature,
                max_iterations as nat,
                old(self).internal_points@,
                corners_of(old(self).triangles@),
                final(self).internal_points@,
                corners_of(final(self).triangles@),
            ),
    {
        let mut iterations: u32 = 0;
        let mut temperature: u64 = self.temperature;
        let mut done = false;
        let ghost boundary = self.boundary_points@;
        let ghost threshold = self.quality_threshold;
        let ghost rate = self.cooling_rate;
        let ghost start_internal = self.internal_points@;
        let ghost start_tris = corners_of(self.triangles@);
        while iterations < max_iterations && temperature > FINAL_TEMPERATURE && !done
            invariant
                iterations <= max_iterations,
                boundary == old(self).boundary_points@,
                threshold == old(self).quality_threshold,
                rate == old(self).cooling_rate,
                start_internal == old(self).internal_points@,
                start_tris == corners_of(old(self).triangles@),
                done ==> grid_anneals_to(
                    *quality,
                    *accept_worse,
                    threshold,
                    boundary,
                    rate,
                    old(self).temperature,
                    max_iterations as nat,
                    start_internal,
                    start_tris,
                    self.internal_points@,
                    corners_of(self.triangles@),
                ),
                !done ==> forall|last_internal: Seq<Point>, last_tris: Seq<Corners>|
                    #[trigger] grid_anneals_to(
                        *quality,
                        *accept_worse,
                        threshold,
                        boundary,
                        rate,
                        temperature,
                        (max_iterations - iterations) as nat,
                        self.internal_points@,
                        corners_of(self.triangles@),
                        last_internal,
                        last_tris,
                    ) ==> grid_anneals_to(
                        *quality,
                        *accept_worse,
                        threshold,
                        boundary,
                        rate,
                        old(self).temperature,
                        max_iterations as nat,
                        start_internal,
                        start_tris,
                        last_internal,
                        last_tris,
                    ),
                self.in_range(),
                self.indexed(),
                forall|a: &Point, b: &Point, c: &Point| quality.requires((a, b, c)),
                forall|before: i64, after: i64, t: u64| accept_worse.requires((before, after, t)),
                self.boundary_points@ == old(self).boundary_points@,
                self.internal_points.len() == old(self).internal_points.len(),
                self.quality_threshold == old(self).quality_threshold,
                self.temperature == old(self).temperature,
                self.cooling_rate == old(self).cooling_rate,
                forall|i: int|
                    0 <= i < self.internal_points.len() ==> (#[trigger] self.internal_points[i])
                        == old(self).internal_points[i] || inside_polygon(
                        self.boundary_points@,
                        self.internal_points[i],
                    ),
                self.triangulated() || (self.internal_points@ == old(self).internal_points@
                    && self.triangles@ == old(self).triangles@),
                old(self).internal_points.len() == 0 ==> self.internal_points@
                    == old(self).internal_points@ && self.triangles@ == old(self).triangles@,
                iterations == 0 ==> temperature == old(self).temperature && self.internal_points@
                    == old(self).internal_points@ && self.triangles@ == old(self).triangles@,
                iterations > 0 ==> old(self).temperature > FINAL_TEMPERATURE,
            decreases max_iterations - iterations + if done { 0int } else { 1int },
        {
            let ghost internal = self.internal_points@;
            let ghost tris = corners_of(self.triangles@);
            let ghost budget = (max_iterations - iterations) as nat;
            let ghost warm = temperature;
            let current_quality = self.calculate_mesh_quality(quality);
            let ghost worths = choose|worths: Seq<u64>| #[trigger]
                gives_worths(boundary + internal, tris, worths, *quality) && current_quality
                    == mean_worth(boundary + internal, tris, worths);
            if current_quality > self.quality_threshold {
                proof {
                    assert(grid_anneals_to(
                        *quality,
                        *accept_worse,
                        threshold,
                        boundary,
                        rate,
                        warm,
                        budget,
                        internal,
                        tris,
                        internal,
                        tris,
                    ));
                }
                done = true;
            } else {
                self.take_step(temperature, current_quality, quality, accept_worse);
                proof {
                    assert(mean_worth(boundary + internal, tris, worths) as i64 == current_quality);
                }
                temperature = cool(temperature, self.cooling_rate);
                iterations += 1;
                proof {
                    let mid_internal = self.internal_points@;
                    let mid_tris = corners_of(self.triangles@);
                    assert forall|last_internal: Seq<Point>, last_tris: Seq<Corners>|
                        #[trigger] grid_anneals_to(
                            *quality,
                            *accept_worse,
                            threshold,
                            boundary,
                            rate,
                            temperature,
                            (max_iterations - iterations) as nat,
                            mid_internal,
                            mid_tris,
                            last_internal,
                            last_tris,
                        ) implies grid_anneals_to(
                        *quality,
                        *accept_worse,
                        threshold,
                        boundary,
                        rate,
                        old(self).temperature,
                        max_iterations as nat,
                        start_internal,
                        start_tris,
                        last_internal,
                        last_tris,
                    ) by {
                        assert((budget - 1) as nat == (max_iterations - iterations) as nat);
                        assert(temperature == cooled(warm, rate));
                        assert(grid_anneals_to(
                            *quality,
                            *accept_worse,
                            threshold,
                            boundary,
                            rate,
                            warm,
                            budget,
                            internal,
                            tris,
                            last_internal,
                            last_tris,
                        ));
                    }
                }
            }
        }
        proof {
            if !done {
                assert(grid_anneals_to(
                    *quality,
                    *accept_worse,
                    threshold,
                    boundary,
                    rate,
                    temperature,
                    (max_iterations - iterations) as nat,
                    self.internal_points@,
                    corners_of(self.triangles@),
                    self.internal_points@,
                    corners_of(self.triangles@),
                ));
            }
        }
        Ok(())
    }

    /// Puts the points and triangles into a mesh and validates it.
    fn create_final_mesh(&self) -> (r: Result<Mesh, MeshError>)
        requires
            self.in_range(),
            forall|i: int|
                0 <= i < self.triangles.len() ==> corners_in_bounds(
                    (#[trigger] self.triangles[i]).corners(),
                    self.all_points().len() as int,
                ),
        ensures
            match r {
                Ok(mesh) => {
                    &&& mesh.vertices@ == self.all_points()
                    &&& mesh.tri_corners() == corners_of(self.triangles@)
                    &&& mesh.triangles_denormalized()
                    &&& mesh.quads is None
                    &&& mesh.quad_indices is None
                    &&& mesh.valid()
                },
                Err(e) => first_triangle_fault(
                    corners_of(self.triangles@),
                    self.all_points(),
                    self.triangles.len() as int,
                ) == Some(e),
            },
    {
        let all_points = self.collect_points();
        let mesh = Mesh::new(all_points, copy_triangles(&self.triangles));
        assert(mesh.quad_corners() =~= Seq::empty());
        match mesh.validate_jacobians() {
            Err(e) => Err(e),
            Ok(()) => Ok(mesh),
        }
    }

    /// Generates a mesh for the boundary: refines the boundary for the
    /// target area, seeds the interior, triangulates, anneals for at most
    /// `max_iterations` steps and validates the outcome.
    pub fn generate_mesh_with_iterations<
        Q: Fn(&Point, &Point, &Point) -> u64,
        A: Fn(i64, i64, u64) -> bool,
    >(&mut self, target_area: u64, max_iterations: u32, quality: &Q, accept_worse: &A) -> (r:
        Result<Mesh, MeshError>)
        requires
            old(self).in_range(),
            forall|a: &Point, b: &Point, c: &Point| quality.requires((a, b, c)),
            forall|before: i64, after: i64, t: u64| accept_worse.requires((before, after, t)),
        ensures
            final(self).boundary_points@ == boundary_samples(
                old(self).boundary_points@,
                edge_length_for(target_area),
                old(self).boundary_points.len() as int,
            ),
            final(self).internal_points.len() == old(self).internal_points.len()
                + interior_lattice(
                final(self).boundary_points@,
                lattice_spacing_for(target_area, 49),
            ).len(),
            forall|i: int|
                0 <= i < final(self).internal_points.len() ==> (
                #[trigger] final(self).internal_points[i]) == (old(self).internal_points@
                    + interior_lattice(
                    final(self).boundary_points@,
                    lattice_spacing_for(target_area, 49),
                ))[i] || inside_polygon(
                    final(self).boundary_points@,
                    final(self).internal_points[i],
                ),
            final(self).triangulated(),
            final(self).in_range(),
            final(self).quality_threshold == old(self).quality_threshold,
            final(self).temperature == old(self).temperature,
            final(self).cooling_rate == old(self).cooling_rate,
            grid_anneals_to(
                *quality,
                *accept_worse,
                old(self).quality_threshold,
                final(self).boundary_points@,
                old(self).cooling_rate,
                old(self).temperature,
                max_iterations as nat,
                old(self).internal_points@ + interior_lattice(
                    final(self).boundary_points@,
                    lattice_spacing_for(target_area, 49),
                ),
                delaunay_corners(
                    final(self).boundary_points@ + (old(self).internal_points@ + interior_lattice(
                        final(self).boundary_points@,
                        lattice_spacing_for(target_area, 49),
                    )),
                ),
                final(self).internal_points@,
                corners_of(final(self).triangles@),
            ),
            match r {
                Ok(mesh) => {
                    &&& mesh.vertices@ == final(self).all_points()
                    &&& mesh.tri_corners() == delaunay_corners(mesh.vertices@)
                    &&& mesh.triangles_denormalized()
                    &&& mesh.quads is None
                    &&& mesh.quad_indices is None
                    &&& mesh.valid()
                },
                Err(e) => first_triangle_fault(
                    delaunay_corners(final(self).all_points()),
                    final(self).all_points(),
                    delaunay_corners(final(self).all_points()).len() as int,
                ) == Some(e),
            },
    {
        let _ = self.refine_boundary_points(target_area);
        let _ = self.generate_internal_grid(target_area);
        let _ = self.create_initial_triangulation();
        proof {
            assert forall|i: int| 0 <= i < self.triangles.len() implies corners_in_bounds(
                (#[trigger] self.triangles[i]).corners(),
                self.all_points().len() as int,
            ) by {
                assert(self.triangles[i].wf(self.all_points()));
            }
        }
        let _ = self.optimize_with_annealing(max_iterations, quality, accept_worse);
        proof {
            assert forall|i: int| 0 <= i < self.triangles.len() implies corners_in_bounds(
                (#[trigger] self.triangles[i]).corners(),
                self.all_points().len() as int,
            ) by {
                assert(self.triangles[i].wf(self.all_points()));
            }
        }
        self.create_final_mesh()
    }

    /// Generates a mesh with the default number of annealing steps.
    pub fn generate_mesh<
        Q: Fn(&Point, &Point, &Point) -> u64,
        A: Fn(i64, i64, u64) -> bool,
    >(&mut self, target_area: u64, quality: &Q, accept_worse: &A) -> (r: Result<Mesh, MeshError>)
        requires
            old(self).in_range(),
            forall|a: &Point, b: &Point, c: &Point| quality.requires((a, b, c)),
            forall|before: i64, after: i64, t: u64| accept_worse.requires((before, after, t)),
        ensures
            final(self).boundary_points@ == boundary_samples(
                old(self).boundary_points@,
                edge_length_for(target_area),
                old(self).boundary_points.len() as int,
            ),
            final(self).triangulated(),
            final(self).in_range(),
            final(self).quality_threshold == old(self).quality_threshold,
            final(self).temperature == old(self).temperature,
            final(self).cooling_rate == old(self).cooling_rate,
            grid_anneals_to(
                *quality,
                *accept_worse,
                old(self).quality_threshold,
                final(self).boundary_points@,
                old(self).cooling_rate,
                old(self).temperature,
                DEFAULT_ITERATIONS as nat,
                old(self).internal_points@ + interior_lattice(
                    final(self).boundary_points@,
                    lattice_spacing_for(target_area, 49),
                ),
                delaunay_corners(
                    final(self).boundary_points@ + (old(self).internal_points@ + interior_lattice(
                        final(self).boundary_points@,
                        lattice_spacing_for(target_area, 49),
                    )),
                ),
                final(self).internal_points@,
                corners_of(final(self).triangles@),
            ),
            match r {
                Ok(mesh) => {
                    &&& mesh.vertices@ == final(self).all_points()
                    &&& mesh.tri_corners() == delaunay_corners(mesh.vertices@)
                    &&& mesh.triangles_denormalized()
                    &&& mesh.quads is None
                    &&& mesh.quad_indices is None
                    &&& mesh.valid()
                },
                Err(e) => first_triangle_fault(
                    delaunay_corners(final(self).all_points()),
                    final(self).all_points(),
                    delaunay_corners(final(self).all_points()).len() as int,
                ) == Some(e),
            },
    {
        self.generate_mesh_with_iterations(target_area, DEFAULT_ITERATIONS, quality, accept_worse)
    }
}

/// Squared distance below which a vertex counts as lying on a boundary
/// point: on the grid, only a vertex at the very place of the boundary point.
pub const BOUNDARY_TOLERANCE_SQ: u128 = 1;

/// Whether `v` lies on a point of the boundary: closer to it, squared, than
/// the tolerance.
pub open spec fn near_boundary(boundary: Seq<Point>, v: Point) -> bool {
    exists|i: int|
        0 <= i < boundary.len() && v.dist_sq(#[trigger] boundary[i]) < BOUNDARY_TOLERANCE_SQ
}

/// Whether `vertex` lies on a point of the boundary.
pub fn is_near_boundary(boundary: &[Point], vertex: &Point) -> (r: bool)
    requires
        all_within(boundary@, EXTENT as int),
        vertex.within(EXTENT as int),
    ensures
        r == near_boundary(boundary@, *vertex),
{
    let mut i: usize = 0;
    while i < boundary.len()
        invariant
            i <= boundary.len(),
            all_within(boundary@, EXTENT as int),
            vertex.within(EXTENT as int),
            forall|k: int|
                0 <= k < i ==> vertex.dist_sq(#[trigger] boundary@[k]) >= BOUNDARY_TOLERANCE_SQ,
        decreases boundary.len() - i,
    {
        let distance_sq = vertex.distance_squared_to(&boundary[i]);
        if distance_sq < BOUNDARY_TOLERANCE_SQ {
            return true;
        }
        i += 1;
    }
    false
}

/// The aspect ratio aimed at unless told otherwise: 1.73, in thousandths.
pub const DEFAULT_ASPECT_RATIO: u64 = 1730;

/// The weight of volume uniformity unless told otherwise, in thousandths.
pub const DEFAULT_VOLUME_WEIGHT: u64 = 300;

/// The weight of the aspect ratio unless told otherwise, in thousandths.
pub const DEFAULT_ASPECT_WEIGHT: u64 = 400;

/// The weight of size uniformity unless told otherwise, in thousandths.
pub const DEFAULT_SIZE_WEIGHT: u64 = 300;

/// The target area unless told otherwise: ten times the smallest wanted
/// area.
pub const DEFAULT_TARGET_AREA: u64 = 10;

/// The smallest wanted area unless told otherwise: half a grid cell, which
/// only a triangle without area falls short of.
pub const DEFAULT_MIN_AREA: u64 = 1;

/// Most passes of size refinement.
pub const MAX_SIZE_PASSES: usize = 3;

/// Number of the first `n` vertices that lie on a boundary point.
pub open spec fn boundary_matches(boundary: Seq<Point>, vertices: Seq<Point>, n: int) -> int
    decreases n,
{
    if n <= 0 {
        0
    } else {
        boundary_matches(boundary, vertices, n - 1) + if near_boundary(boundary, vertices[n - 1]) {
            1int
        } else {
            0int
        }
    }
}

/// Number of leading vertices that annealing does not relocate: the number of
/// vertices on a boundary point; or, when fewer vertices than boundary
/// points are found to be so, the smaller of the number of boundary points
/// and a third of the vertices; none without a boundary.
pub open spec fn protected_count(boundary: Seq<Point>, vertices: Seq<Point>) -> int {
    let matches = boundary_matches(boundary, vertices, vertices.len() as int);
    if boundary.len() == 0 {
        0
    } else if matches < boundary.len() {
        if boundary.len() <= vertices.len() / 3 {
            boundary.len() as int
        } else {
            (vertices.len() / 3) as int
        }
    } else {
        matches
    }
}

/// A position is allowed when it lies inside the boundary, or when there is
/// no boundary at all.
pub open spec fn allowed_position(boundary: Seq<Point>, p: Point) -> bool {
    boundary.len() == 0 || inside_polygon(boundary, p)
}

/// The indices among the first `n` triangles whose area exceeds twice the
/// target area, in order.
pub open spec fn oversized(tris: Seq<Corners>, vertices: Seq<Point>, target_area: int, n: int) -> Seq<
    usize,
>
    decreases n,
{
    if n <= 0 {
        Seq::empty()
    } else {
        let before = oversized(tris, vertices, target_area, n - 1);
        if vstd::math::abs(corners_jacobian(tris[n - 1], vertices)) > 2 * target_area {
            before.push((n - 1) as usize)
        } else {
            before
        }
    }
}

/// The indices among the first `n` triangles whose area falls short of the
/// minimum area, in order.
pub open spec fn undersized(tris: Seq<Corners>, vertices: Seq<Point>, min_area: int, n: int) -> Seq<
    usize,
>
    decreases n,
{
    if n <= 0 {
        Seq::empty()
    } else {
        let before = undersized(tris, vertices, min_area, n - 1);
        if vstd::math::abs(corners_jacobian(tris[n - 1], vertices)) < min_area {
            before.push((n - 1) as usize)
        } else {
            before
        }
    }
}

/// The vertices after triangle `index` was split: its centroid is appended
/// if the index names a triangle and the centroid is an allowed position.
pub open spec fn split(
    vertices: Seq<Point>,
    tris: Seq<Corners>,
    boundary: Seq<Point>,
    index: usize,
) -> Seq<Point> {
    if index < tris.len() && allowed_position(boundary, centroid_of(tris[index as int], vertices)) {
        vertices.push(centroid_of(tris[index as int], vertices))
    } else {
        vertices
    }
}

/// The vertices after the first `k` triangles of `list` were split.
pub open spec fn with_splits(
    vertices: Seq<Point>,
    tris: Seq<Corners>,
    boundary: Seq<Point>,
    list: Seq<usize>,
    k: int,
) -> Seq<Point>
    decreases k,
{
    if k <= 0 {
        vertices
    } else {
        split(with_splits(vertices, tris, boundary, list, k - 1), tris, boundary, list[k - 1])
    }
}

/// A vertex moved a tenth of the way toward a point, each coordinate rounded
/// toward the vertex.
pub open spec fn nudged(v: Point, toward: Point) -> Point {
    Point {
        x: (v.x + trunc_div(toward.x - v.x, 10)) as i64,
        y: (v.y + trunc_div(toward.y - v.y, 10)) as i64,
    }
}

/// The vertices after the first `k` corners of a small triangle were nudged
/// toward `center`, each only if its new position is allowed.
pub open spec fn with_nudges(
    vertices: Seq<Point>,
    boundary: Seq<Point>,
    c: Corners,
    center: Point,
    k: int,
) -> Seq<Point>
    decreases k,
{
    if k <= 0 {
        vertices
    } else {
        let before = with_nudges(vertices, boundary, c, center, k - 1);
        let index = corner(c, k - 1) as int;
        if allowed_position(boundary, nudged(before[index], center)) {
            before.update(index, nudged(before[index], center))
        } else {
            before
        }
    }
}

/// The vertices after small triangle `index` was handled: its three corners
/// nudged toward its centroid.
pub open spec fn small_handled(
    vertices: Seq<Point>,
    tris: Seq<Corners>,
    boundary: Seq<Point>,
    index: usize,
) -> Seq<Point> {
    if index < tris.len() {
        with_nudges(
            vertices,
            boundary,
            tris[index as int],
            centroid_of(tris[index as int], vertices),
            3,
        )
    } else {
        vertices
    }
}

/// The vertices after the first `k` triangles of `list` were handled as
/// small triangles.
pub open spec fn with_small_handled(
    vertices: Seq<Point>,
    tris: Seq<Corners>,
    boundary: Seq<Point>,
    list: Seq<usize>,
    k: int,
) -> Seq<Point>
    decreases k,
{
    if k <= 0 {
        vertices
    } else {
        small_handled(
            with_small_handled(vertices, tris, boundary, list, k - 1),
            tris,
            boundary,
            list[k - 1],
        )
    }
}

/// The vertices after one pass of size refinement: every oversized triangle
/// split, then every undersized triangle handled.
pub open spec fn size_pass(
    vertices: Seq<Point>,
    tris: Seq<Corners>,
    boundary: Seq<Point>,
    target_area: int,
    min_area: int,
) -> Seq<Point> {
    let large = oversized(tris, vertices, target_area, tris.len() as int);
    let small = undersized(tris, vertices, min_area, tris.len() as int);
    let grown = with_splits(vertices, tris, boundary, large, large.len() as int);
    with_small_handled(grown, tris, boundary, small, small.len() as int)
}

/// Whether a pass of size refinement changes anything: a vertex was added,
/// or there was a small triangle to handle.
pub open spec fn size_pass_changes(
    vertices: Seq<Point>,
    tris: Seq<Corners>,
    boundary: Seq<Point>,
    target_area: int,
    min_area: int,
) -> bool {
    let large = oversized(tris, vertices, target_area, tris.len() as int);
    let small = undersized(tris, vertices, min_area, tris.len() as int);
    with_splits(vertices, tris, boundary, large, large.len() as int).len() > vertices.len()
        || small.len() > 0
}

/// The vertices and triangles after at most `passes` passes of size
/// refinement; after each pass that changed something everything is
/// triangulated again, and the first pass that changes nothing ends it.
pub open spec fn size_refined(
    vertices: Seq<Point>,
    tris: Seq<Corners>,
    boundary: Seq<Point>,
    target_area: int,
    min_area: int,
    passes: nat,
) -> (Seq<Point>, Seq<Corners>)
    decreases passes,
{
    if passes == 0 || !size_pass_changes(vertices, tris, boundary, target_area, min_area) {
        (vertices, tris)
    } else {
        let next = size_pass(vertices, tris, boundary, target_area, min_area);
        size_refined(
            next,
            delaunay_corners(next),
            boundary,
            target_area,
            min_area,
            (passes - 1) as nat,
        )
    }
}

/// One, in millionths.
pub const MILLION: u64 = 1_000_000;

/// The weight of the angle quality, in thousandths: a half.
pub const ANGLE_WEIGHT: u64 = 500;

/// The least volume and aspect ratio quality, in millionths: a tenth.
pub const LEAST_QUALITY: u64 = 100_000;

/// The least size uniformity quality, in millionths: a twentieth.
pub const LEAST_SIZE_QUALITY: u64 = 50_000;

/// Largest area of a triangle of input points, in half grid cells.
pub const LARGEST_TRIANGLE: u128 = 8_000_000_000_000;

/// The larger of two numbers.
pub open spec fn at_least(value: int, floor: int) -> int {
    if value < floor {
        floor
    } else {
        value
    }
}

/// Angle quality: the least angle, in millionths of a degree, as a fraction
/// of sixty degrees, in millionths.
pub open spec fn angle_quality(angle: u64) -> int {
    angle as int / 60
}

/// Volume quality of a triangle of area `volume` in a mesh of `count`
/// triangles with a total area of `total`: the ratio of the area and the
/// mean area, the smaller over the larger, in millionths and a tenth at
/// least; one for a mesh without triangles or without area.
pub open spec fn volume_quality(volume: int, total: int, count: int) -> int {
    if count == 0 || total == 0 {
        MILLION as int
    } else if volume * count > total {
        at_least(total * MILLION / (count * volume), LEAST_QUALITY as int)
    } else {
        at_least(volume * count * MILLION / total, LEAST_QUALITY as int)
    }
}

/// Aspect ratio quality: one less the distance of the aspect ratio from its
/// target as a fraction of the target, capped at one; in millionths and a
/// tenth at least.  The aspect ratio is in millionths, the target in
/// thousandths; for a target of zero the quality is a tenth.
pub open spec fn aspect_ratio_quality(aspect: u64, target: u64) -> int {
    let goal = target * 1000;
    let distance = vstd::math::abs(aspect - goal) as int;
    if goal == 0 {
        LEAST_QUALITY as int
    } else if distance * MILLION / goal > MILLION {
        LEAST_QUALITY as int
    } else {
        at_least(MILLION - distance * MILLION / goal, LEAST_QUALITY as int)
    }
}

/// Size uniformity quality of a triangle of area `area`: the target area
/// over the area for a triangle above the target; half the area over the
/// minimum area for a triangle below the minimum; else the area over the
/// target area; in millionths and a twentieth at least.
pub open spec fn size_uniformity_quality(area: int, target_area: int, min_area: int) -> int {
    if area > target_area {
        at_least(target_area * MILLION / area, LEAST_SIZE_QUALITY as int)
    } else if area < min_area {
        at_least(area * MILLION / min_area / 2, LEAST_SIZE_QUALITY as int)
    } else if target_area == 0 {
        LEAST_SIZE_QUALITY as int
    } else {
        at_least(area * MILLION / target_area, LEAST_SIZE_QUALITY as int)
    }
}

/// A fraction of a whole, in millionths, is at most a million.
pub proof fn lemma_ratio_at_most_one(part: int, whole: int)
    by (nonlinear_arith)
    requires
        0 <= part <= whole,
        whole > 0,
    ensures
        0 <= part * 1_000_000 / whole <= 1_000_000,
{
}

/// The total area of the first `n` triangles, in half grid cells.
pub open spec fn area_sum(tris: Seq<Corners>, vertices: Seq<Point>, n: int) -> int
    decreases n,
{
    if n <= 0 {
        0
    } else {
        area_sum(tris, vertices, n - 1) + vstd::math::abs(corners_jacobian(tris[n - 1], vertices))
    }
}

/// The area of a triangle of input points, in half grid cells.
pub fn area_of(a: &Point, b: &Point, c: &Point) -> (area: u128)
    requires
        a.within(COORD_LIMIT as int),
        b.within(COORD_LIMIT as int),
        c.within(COORD_LIMIT as int),
    ensures
        area as int == vstd::math::abs(crate::geometry::cross(*a, *b, *c)),
        area <= LARGEST_TRIANGLE,
{
    let dx21: i128 = b.x as i128 - a.x as i128;
    let dx31: i128 = c.x as i128 - a.x as i128;
    let dy21: i128 = b.y as i128 - a.y as i128;
    let dy31: i128 = c.y as i128 - a.y as i128;
    proof {
        crate::arith::lemma_mul_bound(dx21 as int, dy31 as int, 2_000_000, 2_000_000);
        crate::arith::lemma_mul_bound(dx31 as int, dy21 as int, 2_000_000, 2_000_000);
    }
    let j: i128 = dx21 * dy31 - dx31 * dy21;
    if j >= 0 {
        j as u128
    } else {
        (-j) as u128
    }
}

/// Asks `measure` for its value on every triangle of a mesh.
pub fn measure_mesh<M: Fn(&Point, &Point, &Point) -> u64>(mesh: &Mesh, measure: &M) -> (values: Vec<
    u64,
>)
    requires
        mesh.triangles_in_bounds(),
        forall|a: &Point, b: &Point, c: &Point| measure.requires((a, b, c)),
    ensures
        gives_worths(mesh.vertices@, mesh.tri_corners(), values@, *measure),
{
    let mut values: Vec<u64> = Vec::new();
    let mut i: usize = 0;
    let ghost tris = mesh.tri_corners();
    while i < mesh.triangle_indices.len()
        invariant
            i <= mesh.triangle_indices.len(),
            tris == mesh.tri_corners(),
            tris.len() == mesh.triangle_indices.len(),
            mesh.triangles_in_bounds(),
            forall|a: &Point, b: &Point, c: &Point| measure.requires((a, b, c)),
            values.len() == i,
            forall|k: int|
                0 <= k < i ==> measure.ensures(
                    (
                        &mesh.vertices@[tris[k].0 as int],
                        &mesh.vertices@[tris[k].1 as int],
                        &mesh.vertices@[tris[k].2 as int],
                    ),
                    #[trigger] values[k],
                ),
        decreases mesh.triangle_indices.len() - i,
    {
        let t = mesh.triangle_indices[i];
        assert(corners_in_bounds(tris[i as int], mesh.vertices.len() as int));
        assert(tris[i as int] == (t[0], t[1], t[2]));
        let value = measure(&mesh.vertices[t[0]], &mesh.vertices[t[1]], &mesh.vertices[t[2]]);
        values.push(value);
        i += 1;
    }
    values
}

/// A mesh that the optimiser can work on: every triangle names vertices of
/// the mesh, and every vertex lies in the input range.
pub open spec fn workable(mesh: Mesh) -> bool {
    mesh.triangles_in_bounds() && all_within(mesh.vertices@, COORD_LIMIT as int)
}

/// No vertex is free to move: each vertex from `free_from` on lies on a
/// boundary point.
pub open spec fn no_free_vertex(boundary: Seq<Point>, vertices: Seq<Point>, free_from: int) -> bool {
    forall|i: int| free_from <= i < vertices.len() ==> near_boundary(boundary, #[trigger] vertices[i])
}

/// What holds of the vertices `v` and triangles `t` that annealing leaves
/// behind, whatever the random numbers were: no vertex was added or removed,
/// each protected vertex and each vertex on a boundary point is where it was,
/// every vertex that is not where it was is at an allowed position, and
/// unless nothing has changed the triangles are the triangulation of the
/// vertices.
pub open spec fn annealed(
    boundary: Seq<Point>,
    start: Seq<Point>,
    start_tris: Seq<Corners>,
    v: Seq<Point>,
    t: Seq<Corners>,
) -> bool {
    &&& v.len() == start.len()
    &&& forall|i: int|
        0 <= i < start.len() && (i < protected_count(boundary, start) || near_boundary(
            boundary,
            start[i],
        )) ==> #[trigger] v[i] == start[i]
    &&& forall|i: int|
        0 <= i < start.len() ==> #[trigger] v[i] == start[i] || allowed_position(boundary, v[i])
    &&& (t == delaunay_corners(v) || (v == start && t == start_tris))
}

/// The optimiser leaves a mesh as it is when it has quads or no triangles.
pub open spec fn left_alone(mesh: Mesh) -> bool {
    (mesh.quads is Some && mesh.quads->Some_0.len() > 0) || mesh.triangles.len() == 0
}

/// An optimiser for any triangle mesh: anneals the vertices that do not lie
/// on the boundary, then refines the sizes of the triangles.
pub struct GeneralAnnealingOptimizer {
    /// Starting temperature, in thousandths.
    pub temperature: u64,
    /// Factor by which the temperature shrinks each step, in thousandths.
    pub cooling_rate: u64,
    pub max_iterations: u32,
    pub check_volume: bool,
    pub check_aspect_ratio: bool,
    /// In thousandths.
    pub target_aspect_ratio: u64,
    /// In thousandths.
    pub volume_weight: u64,
    /// In thousandths.
    pub aspect_ratio_weight: u64,
    pub check_size_uniformity: bool,
    /// In thousandths.
    pub size_uniformity_weight: u64,
    /// In half grid cells.
    pub target_area: u64,
    /// In half grid cells.
    pub min_area: u64,
    /// The boundary that vertices must stay inside; empty for none.
    pub boundary_points: Vec<Point>,
    pub rng: ThreadRng,
}

impl GeneralAnnealingOptimizer {
    /// Everything but the random number generator is as in `other`.
    pub open spec fn same_settings(self, other: Self) -> bool {
        &&& self.temperature == other.temperature
        &&& self.cooling_rate == other.cooling_rate
        &&& self.max_iterations == other.max_iterations
        &&& self.check_volume == other.check_volume
        &&& self.check_aspect_ratio == other.check_aspect_ratio
        &&& self.target_aspect_ratio == other.target_aspect_ratio
        &&& self.volume_weight == other.volume_weight
        &&& self.aspect_ratio_weight == other.aspect_ratio_weight
        &&& self.check_size_uniformity == other.check_size_uniformity
        &&& self.size_uniformity_weight == other.size_uniformity_weight
        &&& self.target_area == other.target_area
        &&& self.min_area == other.min_area
        &&& self.boundary_points@ == other.boundary_points@
    }

    /// The sum of the weights of the quality terms in use, in thousandths.
    pub open spec fn weight_sum(self) -> int {
        ANGLE_WEIGHT + (if self.check_volume {
            self.volume_weight as int
        } else {
            0
        }) + (if self.check_aspect_ratio {
            self.aspect_ratio_weight as int
        } else {
            0
        }) + (if self.check_size_uniformity {
            self.size_uniformity_weight as int
        } else {
            0
        })
    }

    /// The quality of one triangle, in millionths: the weighted mean of its
    /// angle quality and of the volume, aspect ratio and size uniformity
    /// qualities that are in use.
    pub open spec fn triangle_quality(
        self,
        angle: u64,
        aspect: u64,
        area: int,
        total: int,
        count: int,
    ) -> int {
        (angle_quality(angle) * ANGLE_WEIGHT + (if self.check_volume {
            volume_quality(area, total, count) * self.volume_weight
        } else {
            0
        }) + (if self.check_aspect_ratio {
            aspect_ratio_quality(aspect, self.target_aspect_ratio) * self.aspect_ratio_weight
        } else {
            0
        }) + (if self.check_size_uniformity {
            size_uniformity_quality(area, self.target_area as int, self.min_area as int)
                * self.size_uniformity_weight
        } else {
            0
        })) / self.weight_sum()
    }

    /// The sum of the qualities of the triangles with a positive Jacobian
    /// among the first `n`, and the number of these triangles.
    pub open spec fn quality_sums(
        self,
        vertices: Seq<Point>,
        tris: Seq<Corners>,
        angles: Seq<u64>,
        aspects: Seq<u64>,
        n: int,
    ) -> (int, int)
        decreases n,
    {
        if n <= 0 {
            (0, 0)
        } else {
            let before = self.quality_sums(vertices, tris, angles, aspects, n - 1);
            if corners_jacobian(tris[n - 1], vertices) > 0 {
                (
                    before.0 + self.triangle_quality(
                        angles[n - 1],
                        aspects[n - 1],
                        vstd::math::abs(corners_jacobian(tris[n - 1], vertices)) as int,
                        area_sum(tris, vertices, tris.len() as int),
                        tris.len() as int,
                    ),
                    before.1 + 1,
                )
            } else {
                before
            }
        }
    }

    /// The quality of a mesh, in millionths: the mean of the qualities of
    /// its triangles with a positive Jacobian, rounded down; zero for a mesh
    /// without such a triangle.
    pub open spec fn enhanced_quality(
        self,
        vertices: Seq<Point>,
        tris: Seq<Corners>,
        angles: Seq<u64>,
        aspects: Seq<u64>,
    ) -> int {
        let sums = self.quality_sums(vertices, tris, angles, aspects, tris.len() as int);
        if sums.1 == 0 {
            0
        } else {
            sums.0 / sums.1
        }
    }

    /// The volume quality of a triangle of area `volume` in a mesh of
    /// `count` triangles with a total area of `total`.
    pub fn calculate_volume_quality(&self, volume: u128, total: u128, count: usize) -> (q: u64)
        requires
            volume <= LARGEST_TRIANGLE,
            total <= count * LARGEST_TRIANGLE,
        ensures
            q as int == volume_quality(volume as int, total as int, count as int),
            LEAST_QUALITY <= q <= MILLION,
    {
        if count == 0 || total == 0 {
            return MILLION;
        }
        let n: u128 = count as u128;
        assert(volume * n <= 8_000_000_000_000 * 0xffff_ffff_ffff_ffff) by (nonlinear_arith)
            requires
                volume <= 8_000_000_000_000,
                n <= 0xffff_ffff_ffff_ffff,
        ;
        assert(total <= 8_000_000_000_000 * 0xffff_ffff_ffff_ffff) by (nonlinear_arith)
            requires
                total <= n * 8_000_000_000_000,
                n <= 0xffff_ffff_ffff_ffff,
        ;
        let spread: u128 = volume * n;
        let ratio: u128 = if spread > total {
            proof {
                lemma_ratio_at_most_one(total as int, spread as int);
            }
            total * 1_000_000 / spread
        } else {
            proof {
                lemma_ratio_at_most_one(spread as int, total as int);
            }
            spread * 1_000_000 / total
        };
        assert(n * volume == volume * n) by (nonlinear_arith);
        if ratio < LEAST_QUALITY as u128 {
            LEAST_QUALITY
        } else {
            ratio as u64
        }
    }

    /// The aspect ratio quality of a triangle with the given aspect ratio,
    /// in millionths.
    pub fn calculate_aspect_ratio_quality(&self, aspect_ratio: u64) -> (q: u64)
        ensures
            q as int == aspect_ratio_quality(aspect_ratio, self.target_aspect_ratio),
            LEAST_QUALITY <= q <= MILLION,
    {
        let goal: u128 = self.target_aspect_ratio as u128 * 1000;
        if goal == 0 {
            return LEAST_QUALITY;
        }
        let ratio_diff: u128 = if aspect_ratio as u128 >= goal {
            aspect_ratio as u128 - goal
        } else {
            goal - aspect_ratio as u128
        };
        let normalized_diff: u128 = ratio_diff * 1_000_000 / goal;
        if normalized_diff > MILLION as u128 {
            return LEAST_QUALITY;
        }
        let quality: u128 = MILLION as u128 - normalized_diff;
        if quality < LEAST_QUALITY as u128 {
            LEAST_QUALITY
        } else {
            quality as u64
        }
    }

    /// The size uniformity quality of a triangle of the given area.
    pub fn calculate_size_uniformity_quality(&self, area: u128) -> (q: u64)
        requires
            area <= LARGEST_TRIANGLE,
        ensures
            q as int == size_uniformity_quality(
                area as int,
                self.target_area as int,
                self.min_area as int,
            ),
            LEAST_SIZE_QUALITY <= q <= MILLION,
    {
        let target: u128 = self.target_area as u128;
        let least: u128 = self.min_area as u128;
        let size_ratio: u128 = if area > target {
            proof {
                lemma_ratio_at_most_one(target as int, area as int);
            }
            target * 1_000_000 / area
        } else if area < least {
            proof {
                lemma_ratio_at_most_one(area as int, least as int);
            }
            area * 1_000_000 / least / 2
        } else if target == 0 {
            0
        } else {
            proof {
                lemma_ratio_at_most_one(area as int, target as int);
            }
            area * 1_000_000 / target
        };
        if size_ratio < LEAST_SIZE_QUALITY as u128 {
            LEAST_SIZE_QUALITY
        } else {
            size_ratio as u64
        }
    }

    /// The quality of the mesh from the least angle and the aspect ratio of
    /// each of its triangles, both in millionths.
    pub fn calculate_enhanced_quality(&self, mesh: &Mesh, angles: &[u64], aspects: &[u64]) -> (q:
        i64)
        requires
            workable(*mesh),
            angles.len() == mesh.triangle_indices.len(),
            aspects.len() == mesh.triangle_indices.len(),
        ensures
            q == self.enhanced_quality(mesh.vertices@, mesh.tri_corners(), angles@, aspects@),
    {
        let ghost tris = mesh.tri_corners();
        let ghost vertices = mesh.vertices@;
        let count = mesh.triangle_indices.len();
        let mut total_area: u128 = 0;
        let mut i: usize = 0;
        while i < count
            invariant
                i <= count,
                count == mesh.triangle_indices.len(),
                workable(*mesh),
                tris == mesh.tri_corners(),
                vertices == mesh.vertices@,
                total_area == area_sum(tris, vertices, i as int),
                total_area <= i * LARGEST_TRIANGLE,
            decreases count - i,
        {
            let t = mesh.triangle_indices[i];
            assert(corners_in_bounds(tris[i as int], vertices.len() as int));
            assert(tris[i as int] == (t[0], t[1], t[2]));
            assert(vertices[t[0] as int].within(COORD_LIMIT as int));
            assert(vertices[t[1] as int].within(COORD_LIMIT as int));
            assert(vertices[t[2] as int].within(COORD_LIMIT as int));
            let area = area_of(&mesh.vertices[t[0]], &mesh.vertices[t[1]], &mesh.vertices[t[2]]);
            total_area = total_area + area;
            i += 1;
        }
        let weight: u128 = ANGLE_WEIGHT as u128 + (if self.check_volume {
            self.volume_weight as u128
        } else {
            0
        }) + (if self.check_aspect_ratio {
            self.aspect_ratio_weight as u128
        } else {
            0
        }) + (if self.check_size_uniformity {
            self.size_uniformity_weight as u128
        } else {
            0
        });
        let mut total_quality: u128 = 0;
        let mut valid_triangles: u128 = 0;
        let mut k: usize = 0;
        while k < count
            invariant
                k <= count,
                count == mesh.triangle_indices.len(),
                count == tris.len(),
                angles.len() == count,
                aspects.len() == count,
                workable(*mesh),
                tris == mesh.tri_corners(),
                vertices == mesh.vertices@,
                total_area == area_sum(tris, vertices, count as int),
                total_area <= count * LARGEST_TRIANGLE,
                weight == self.weight_sum(),
                (total_quality as int, valid_triangles as int) == self.quality_sums(
                    vertices,
                    tris,
                    angles@,
                    aspects@,
                    k as int,
                ),
                valid_triangles <= k,
                total_quality <= valid_triangles * 400_000_000_000_000_000,
            decreases count - k,
        {
            let t = mesh.triangle_indices[k];
            assert(corners_in_bounds(tris[k as int], vertices.len() as int));
            assert(tris[k as int] == (t[0], t[1], t[2]));
            assert(vertices[t[0] as int].within(COORD_LIMIT as int));
            assert(vertices[t[1] as int].within(COORD_LIMIT as int));
            assert(vertices[t[2] as int].within(COORD_LIMIT as int));
            proof {
                lemma_input_points_are_working_points(vertices);
            }
            let a = &mesh.vertices[t[0]];
            let b = &mesh.vertices[t[1]];
            let c = &mesh.vertices[t[2]];
            let jacobian = crate::geometry::orientation(a, b, c);
            if jacobian > 0 {
                let volume = area_of(a, b, c);
                let angle_quality: u128 = (angles[k] / 60) as u128;
                let mut quality_score: u128 = angle_quality * (ANGLE_WEIGHT as u128);
                let ghost cap: int = 400_000_000_000_000_000;
                let mut used: u128 = ANGLE_WEIGHT as u128;
                assert(quality_score <= cap * used);
                if self.check_volume {
                    let volume_quality = self.calculate_volume_quality(volume, total_area, count);
                    assert(volume_quality * self.volume_weight <= cap * self.volume_weight)
                        by (nonlinear_arith)
                        requires
                            volume_quality <= 1_000_000,
                            cap == 400_000_000_000_000_000,
                            self.volume_weight >= 0,
                    ;
                    quality_score = quality_score + (volume_quality as u128) * (
                    self.volume_weight as u128);
                    used = used + self.volume_weight as u128;
                    assert(cap * (used - self.volume_weight) + cap * self.volume_weight == cap
                        * used) by (nonlinear_arith);
                }
                if self.check_aspect_ratio {
                    let aspect_quality = self.calculate_aspect_ratio_quality(aspects[k]);
                    assert(aspect_quality * self.aspect_ratio_weight <= cap
                        * self.aspect_ratio_weight) by (nonlinear_arith)
                        requires
                            aspect_quality <= 1_000_000,
                            cap == 400_000_000_000_000_000,
                            self.aspect_ratio_weight >= 0,
                    ;
                    assert(cap * used <= cap * 0x4_0000_0000_0000_0000) by (nonlinear_arith)
                        requires
                            cap == 400_000_000_000_000_000,
                            0 <= used <= 0x4_0000_0000_0000_0000,
                    ;
                    quality_score = quality_score + (aspect_quality as u128) * (
                    self.aspect_ratio_weight as u128);
                    used = used + self.aspect_ratio_weight as u128;
                    assert(cap * (used - self.aspect_ratio_weight) + cap * self.aspect_ratio_weight
                        == cap * used) by (nonlinear_arith);
                }
                if self.check_size_uniformity {
                    let size_quality = self.calculate_size_uniformity_quality(volume);
                    assert(size_quality * self.size_uniformity_weight <= cap
                        * self.size_uniformity_weight) by (nonlinear_arith)
                        requires
                            size_quality <= 1_000_000,
                            cap == 400_000_000_000_000_000,
                            self.size_uniformity_weight >= 0,
                    ;
                    assert(cap * used <= cap * 0x4_0000_0000_0000_0000) by (nonlinear_arith)
                        requires
                            cap == 400_000_000_000_000_000,
                            0 <= used <= 0x4_0000_0000_0000_0000,
                    ;
                    quality_score = quality_score + (size_quality as u128) * (
                    self.size_uniformity_weight as u128);
                    used = used + self.size_uniformity_weight as u128;
                    assert(cap * (used - self.size_uniformity_weight) + cap
                        * self.size_uniformity_weight == cap * used) by (nonlinear_arith);
                }
                assert(used == weight);
                assert(quality_score / weight <= cap) by (nonlinear_arith)
                    requires
                        0 <= quality_score <= cap * weight,
                        weight > 0,
                ;
                total_quality = total_quality + quality_score / weight;
                valid_triangles = valid_triangles + 1;
            }
            k += 1;
        }
        if valid_triangles > 0 {
            assert(total_quality / valid_triangles <= 400_000_000_000_000_000) by (nonlinear_arith)
                requires
                    0 <= total_quality <= valid_triangles * 400_000_000_000_000_000,
                    valid_triangles >= 1,
            ;
            (total_quality / valid_triangles) as i64
        } else {
            0
        }
    }

    /// An optimiser with every setting at its default and no boundary.
    pub fn new() -> (o: Self)
        ensures
            o.temperature == DEFAULT_TEMPERATURE,
            o.cooling_rate == DEFAULT_COOLING_RATE,
            o.max_iterations == DEFAULT_ITERATIONS,
            o.check_volume,
            o.check_aspect_ratio,
            o.target_aspect_ratio == DEFAULT_ASPECT_RATIO,
            o.volume_weight == DEFAULT_VOLUME_WEIGHT,
            o.aspect_ratio_weight == DEFAULT_ASPECT_WEIGHT,
            o.check_size_uniformity,
            o.size_uniformity_weight == DEFAULT_SIZE_WEIGHT,
            o.target_area == DEFAULT_TARGET_AREA,
            o.min_area == DEFAULT_MIN_AREA,
            o.boundary_points@.len() == 0,
    {
        Self {
            temperature: DEFAULT_TEMPERATURE,
            cooling_rate: DEFAULT_COOLING_RATE,
            max_iterations: DEFAULT_ITERATIONS,
            check_volume: true,
            check_aspect_ratio: true,
            target_aspect_ratio: DEFAULT_ASPECT_RATIO,
            volume_weight: DEFAULT_VOLUME_WEIGHT,
            aspect_ratio_weight: DEFAULT_ASPECT_WEIGHT,
            check_size_uniformity: true,
            size_uniformity_weight: DEFAULT_SIZE_WEIGHT,
            target_area: DEFAULT_TARGET_AREA,
            min_area: DEFAULT_MIN_AREA,
            boundary_points: Vec::new(),
            rng: thread_generator(),
        }
    }

    /// An optimiser with the given settings; each one that is left out takes
    /// its default.
    pub fn from_options(options: &AnnealingOptions) -> (o: Self)
        ensures
            o.temperature == options.temperature.unwrap_or(DEFAULT_TEMPERATURE),
            o.cooling_rate == options.cooling_rate.unwrap_or(DEFAULT_COOLING_RATE),
            o.max_iterations == options.max_iterations.unwrap_or(DEFAULT_ITERATIONS),
            o.check_volume == options.check_volume.unwrap_or(true),
            o.check_aspect_ratio == options.check_aspect_ratio.unwrap_or(true),
            o.target_aspect_ratio == options.target_aspect_ratio.unwrap_or(DEFAULT_ASPECT_RATIO),
            o.volume_weight == options.volume_weight.unwrap_or(DEFAULT_VOLUME_WEIGHT),
            o.aspect_ratio_weight == options.aspect_ratio_weight.unwrap_or(DEFAULT_ASPECT_WEIGHT),
            o.check_size_uniformity == options.check_size_uniformity.unwrap_or(true),
            o.size_uniformity_weight == options.size_uniformity_weight.unwrap_or(
                DEFAULT_SIZE_WEIGHT,
            ),
            o.target_area == options.target_area.unwrap_or(DEFAULT_TARGET_AREA),
            o.min_area == options.min_area.unwrap_or(DEFAULT_MIN_AREA),
            o.boundary_points@.len() == 0,
    {
        Self {
            temperature: options.temperature.unwrap_or(DEFAULT_TEMPERATURE),
            cooling_rate: options.cooling_rate.unwrap_or(DEFAULT_COOLING_RATE),
            max_iterations: options.max_iterations.unwrap_or(DEFAULT_ITERATIONS),
            check_volume: options.check_volume.unwrap_or(true),
            check_aspect_ratio: options.check_aspect_ratio.unwrap_or(true),
            target_aspect_ratio: options.target_aspect_ratio.unwrap_or(DEFAULT_ASPECT_RATIO),
            volume_weight: options.volume_weight.unwrap_or(DEFAULT_VOLUME_WEIGHT),
            aspect_ratio_weight: options.aspect_ratio_weight.unwrap_or(DEFAULT_ASPECT_WEIGHT),
            check_size_uniformity: options.check_size_uniformity.unwrap_or(true),
            size_uniformity_weight: options.size_uniformity_weight.unwrap_or(DEFAULT_SIZE_WEIGHT),
            target_area: options.target_area.unwrap_or(DEFAULT_TARGET_AREA),
            min_area: options.min_area.unwrap_or(DEFAULT_MIN_AREA),
            boundary_points: Vec::new(),
            rng: thread_generator(),
        }
    }

    /// Sets the boundary that vertices must stay inside.
    pub fn set_boundary(&mut self, boundary_points: Vec<Point>)
        ensures
            final(self).boundary_points@ == boundary_points@,
            final(self).temperature == old(self).temperature,
            final(self).cooling_rate == old(self).cooling_rate,
            final(self).max_iterations == old(self).max_iterations,
            final(self).check_volume == old(self).check_volume,
            final(self).check_aspect_ratio == old(self).check_aspect_ratio,
            final(self).target_aspect_ratio == old(self).target_aspect_ratio,
            final(self).volume_weight == old(self).volume_weight,
            final(self).aspect_ratio_weight == old(self).aspect_ratio_weight,
            final(self).check_size_uniformity == old(self).check_size_uniformity,
            final(self).size_uniformity_weight == old(self).size_uniformity_weight,
            final(self).target_area == old(self).target_area,
            final(self).min_area == old(self).min_area,
    {
        self.boundary_points = boundary_points;
    }

    /// `angles` and `aspects` hold, for each triangle, what `min_angle` and
    /// `aspect_ratio` give for its three corner points.
    pub open spec fn measured<
        N: Fn(&Point, &Point, &Point) -> u64,
        R: Fn(&Point, &Point, &Point) -> u64,
    >(
        vertices: Seq<Point>,
        tris: Seq<Corners>,
        angles: Seq<u64>,
        aspects: Seq<u64>,
        min_angle: N,
        aspect_ratio: R,
    ) -> bool {
        gives_worths(vertices, tris, angles, min_angle) && gives_worths(
            vertices,
            tris,
            aspects,
            aspect_ratio,
        )
    }

    /// Whether a move stays, for the vertices and triangles after the move
    /// with their measures: it stays if the quality of the mesh is higher
    /// than the quality before, and else if `accept_worse`, asked with the
    /// quality before and after and the temperature, says so.
    pub open spec fn move_judged<
        N: Fn(&Point, &Point, &Point) -> u64,
        R: Fn(&Point, &Point, &Point) -> u64,
        A: Fn(i64, i64, u64) -> bool,
    >(
        self,
        min_angle: N,
        aspect_ratio: R,
        accept_worse: A,
        temperature: u64,
        current_quality: i64,
        vertices: Seq<Point>,
        tris: Seq<Corners>,
        angles: Seq<u64>,
        aspects: Seq<u64>,
        kept: bool,
    ) -> bool {
        &&& Self::measured(vertices, tris, angles, aspects, min_angle, aspect_ratio)
        &&& if self.enhanced_quality(vertices, tris, angles, aspects) > current_quality {
            kept
        } else {
            accept_worse.ensures(
                (
                    current_quality,
                    self.enhanced_quality(vertices, tris, angles, aspects) as i64,
                    temperature,
                ),
                kept,
            )
        }
    }

    /// What a proposal to move vertex `index` to `target` leads to, from the
    /// vertices and triangles `vertices`, `tris`.  If the target is no
    /// allowed position in the input range, or the vertex lies on a
    /// boundary point, nothing changes; if not, the vertex is moved and
    /// everything is triangulated, and then the vertex is at the target if
    /// the move stays and back where it was if not, and the triangles are
    /// the triangulation of the vertices.
    pub open spec fn move_outcome<
        N: Fn(&Point, &Point, &Point) -> u64,
        R: Fn(&Point, &Point, &Point) -> u64,
        A: Fn(i64, i64, u64) -> bool,
    >(
        self,
        min_angle: N,
        aspect_ratio: R,
        accept_worse: A,
        temperature: u64,
        current_quality: i64,
        vertices: Seq<Point>,
        tris: Seq<Corners>,
        index: int,
        target: Point,
        next_vertices: Seq<Point>,
        next_tris: Seq<Corners>,
    ) -> bool {
        if target.within(COORD_LIMIT as int) && allowed_position(self.boundary_points@, target)
            && !near_boundary(self.boundary_points@, vertices[index]) {
            &&& next_tris == delaunay_corners(next_vertices)
            &&& exists|angles: Seq<u64>, aspects: Seq<u64>, kept: bool| #[trigger]
                self.move_judged(
                    min_angle,
                    aspect_ratio,
                    accept_worse,
                    temperature,
                    current_quality,
                    vertices.update(index, target),
                    delaunay_corners(vertices.update(index, target)),
                    angles,
                    aspects,
                    kept,
                ) && next_vertices == if kept {
                    vertices.update(index, target)
                } else {
                    vertices
                }
        } else {
            next_vertices == vertices && next_tris == tris
        }
    }

    /// One step of annealing at a temperature, for a mesh of the given
    /// quality, leads from the vertices and triangles `vertices`, `tris` to
    /// `next_vertices`, `next_tris`.  Without a vertex from `free_from` on
    /// nothing changes.  Else the step is the outcome of some proposal: see
    /// [`Self::move_outcome`].
    pub open spec fn vertex_step<
        N: Fn(&Point, &Point, &Point) -> u64,
        R: Fn(&Point, &Point, &Point) -> u64,
        A: Fn(i64, i64, u64) -> bool,
    >(
        self,
        min_angle: N,
        aspect_ratio: R,
        accept_worse: A,
        temperature: u64,
        current_quality: i64,
        free_from: int,
        vertices: Seq<Point>,
        tris: Seq<Corners>,
        next_vertices: Seq<Point>,
        next_tris: Seq<Corners>,
    ) -> bool {
        if vertices.len() <= free_from {
            next_vertices == vertices && next_tris == tris
        } else {
            exists|index: int, target: Point| #[trigger]
                is_proposal(
                    vertices,
                    free_from,
                    displacement_radius(temperature, 20) as int,
                    index,
                    target,
                ) && self.move_outcome(
                    min_angle,
                    aspect_ratio,
                    accept_worse,
                    temperature,
                    current_quality,
                    vertices,
                    tris,
                    index,
                    target,
                    next_vertices,
                    next_tris,
                )
        }
    }

    /// Annealing at `temperature` with a budget of `budget` steps leads from
    /// the vertices and triangles `vertices`, `tris` to `last_vertices`,
    /// `last_tris`: it ends where it stands when the budget is spent or the
    /// temperature is a tenth or less, and else takes the quality of the
    /// mesh, with the measures that the two functions give, takes one step
    /// and goes on at the cooled temperature.
    pub open spec fn anneals_to<
        N: Fn(&Point, &Point, &Point) -> u64,
        R: Fn(&Point, &Point, &Point) -> u64,
        A: Fn(i64, i64, u64) -> bool,
    >(
        self,
        min_angle: N,
        aspect_ratio: R,
        accept_worse: A,
        free_from: int,
        temperature: u64,
        budget: nat,
        vertices: Seq<Point>,
        tris: Seq<Corners>,
        last_vertices: Seq<Point>,
        last_tris: Seq<Corners>,
    ) -> bool
        decreases budget,
    {
        if budget == 0 || temperature <= FINAL_TEMPERATURE {
            last_vertices == vertices && last_tris == tris
        } else {
            exists|angles: Seq<u64>, aspects: Seq<u64>| #[trigger]
                Self::measured(vertices, tris, angles, aspects, min_angle, aspect_ratio)
                    && exists|mid_vertices: Seq<Point>, mid_tris: Seq<Corners>| #[trigger]
                    self.vertex_step(
                        min_angle,
                        aspect_ratio,
                        accept_worse,
                        temperature,
                        self.enhanced_quality(vertices, tris, angles, aspects) as i64,
                        free_from,
                        vertices,
                        tris,
                        mid_vertices,
                        mid_tris,
                    ) && self.anneals_to(
                        min_angle,
                        aspect_ratio,
                        accept_worse,
                        free_from,
                        cooled(temperature, self.cooling_rate),
                        (budget - 1) as nat,
                        mid_vertices,
                        mid_tris,
                        last_vertices,
                        last_tris,
                    )
        }
    }

    /// The quality of a mesh depends on the settings of the optimiser only.
    pub proof fn lemma_quality_by_settings(
        self,
        other: Self,
        vertices: Seq<Point>,
        tris: Seq<Corners>,
        angles: Seq<u64>,
        aspects: Seq<u64>,
        n: int,
    )
        requires
            self.same_settings(other),
        ensures
            self.quality_sums(vertices, tris, angles, aspects, n) == other.quality_sums(
                vertices,
                tris,
                angles,
                aspects,
                n,
            ),
            n == tris.len() ==> self.enhanced_quality(vertices, tris, angles, aspects)
                == other.enhanced_quality(vertices, tris, angles, aspects),
        decreases n,
    {
        if n > 0 {
            self.lemma_quality_by_settings(other, vertices, tris, angles, aspects, n - 1);
        }
    }

    /// Carries out the proposal to move vertex `vertex_idx` to `new_vertex`,
    /// at a temperature and for a mesh of the given quality: moves the
    /// vertex if the target is an allowed position in the input range and
    /// the vertex does not lie on a boundary point, triangulates, and puts
    /// the vertex back if the move does not stay.  Says whether the vertex
    /// is now at the target because the move stayed.
    pub fn propose_move<
        N: Fn(&Point, &Point, &Point) -> u64,
        R: Fn(&Point, &Point, &Point) -> u64,
        A: Fn(i64, i64, u64) -> bool,
    >(
        &self,
        mesh: &mut Mesh,
        vertex_idx: usize,
        new_vertex: Point,
        temperature: u64,
        current_quality: i64,
        min_angle: &N,
        aspect_ratio: &R,
        accept_worse: &A,
    ) -> (kept: bool)
        requires
            workable(*old(mesh)),
            all_within(self.boundary_points@, COORD_LIMIT as int),
            vertex_idx < old(mesh).vertices.len(),
            forall|a: &Point, b: &Point, c: &Point| min_angle.requires((a, b, c)),
            forall|a: &Point, b: &Point, c: &Point| aspect_ratio.requires((a, b, c)),
            forall|before: i64, after: i64, t: u64| accept_worse.requires((before, after, t)),
        ensures
            workable(*final(mesh)),
            final(mesh).quads == old(mesh).quads,
            final(mesh).quad_indices == old(mesh).quad_indices,
            final(mesh).vertices@ == if kept {
                old(mesh).vertices@.update(vertex_idx as int, new_vertex)
            } else {
                old(mesh).vertices@
            },
            kept ==> new_vertex.within(COORD_LIMIT as int) && allowed_position(
                self.boundary_points@,
                new_vertex,
            ) && !near_boundary(self.boundary_points@, old(mesh).vertices[vertex_idx as int]),
            if new_vertex.within(COORD_LIMIT as int) && allowed_position(
                self.boundary_points@,
                new_vertex,
            ) && !near_boundary(self.boundary_points@, old(mesh).vertices[vertex_idx as int]) {
                final(mesh).tri_corners() == delaunay_corners(final(mesh).vertices@)
                    && final(mesh).triangles_denormalized()
            } else {
                final(mesh).triangle_indices@ == old(mesh).triangle_indices@
                    && final(mesh).triangles@ == old(mesh).triangles@
            },
            self.move_outcome(
                *min_angle,
                *aspect_ratio,
                *accept_worse,
                temperature,
                current_quality,
                old(mesh).vertices@,
                old(mesh).tri_corners(),
                vertex_idx as int,
                new_vertex,
                final(mesh).vertices@,
                final(mesh).tri_corners(),
            ),
    {
        let ghost vertices = mesh.vertices@;
        let old_vertex = mesh.vertices[vertex_idx];
        assert(old_vertex.within(COORD_LIMIT as int));
        proof {
            lemma_input_points_are_working_points(self.boundary_points@);
            lemma_input_points_are_working_points(vertices);
        }
        if new_vertex.is_within(COORD_LIMIT) && self.is_point_inside_boundary(&new_vertex)
            && !self.is_boundary_vertex(&old_vertex) {
            self.place_vertex(mesh, vertex_idx, new_vertex);
            let ghost moved = mesh.vertices@;
            let ghost moved_tris = mesh.tri_corners();
            let new_quality = self.quality_of(mesh, min_angle, aspect_ratio);
            let ghost (angles, aspects) = choose|angles: Seq<u64>, aspects: Seq<u64>|
                #![trigger self.enhanced_quality(moved, moved_tris, angles, aspects)]
                gives_worths(moved, moved_tris, angles, *min_angle) && gives_worths(
                    moved,
                    moved_tris,
                    aspects,
                    *aspect_ratio,
                ) && new_quality == self.enhanced_quality(moved, moved_tris, angles, aspects);
            let keep = if new_quality > current_quality {
                true
            } else {
                accept_worse(current_quality, new_quality, temperature)
            };
            proof {
                assert(self.move_judged(
                    *min_angle,
                    *aspect_ratio,
                    *accept_worse,
                    temperature,
                    current_quality,
                    moved,
                    moved_tris,
                    angles,
                    aspects,
                    keep,
                ));
            }
            if !keep {
                self.place_vertex(mesh, vertex_idx, old_vertex);
                assert(mesh.vertices@ =~= vertices);
            }
            keep
        } else {
            false
        }
    }

    /// Takes one step of annealing at a temperature, for a mesh of the given
    /// quality: draws a vertex from `free_from` on and a displacement and
    /// carries out the proposal.
    fn take_step<
        N: Fn(&Point, &Point, &Point) -> u64,
        R: Fn(&Point, &Point, &Point) -> u64,
        A: Fn(i64, i64, u64) -> bool,
    >(
        &mut self,
        mesh: &mut Mesh,
        free_from: usize,
        temperature: u64,
        current_quality: i64,
        min_angle: &N,
        aspect_ratio: &R,
        accept_worse: &A,
    )
        requires
            workable(*old(mesh)),
            all_within(old(self).boundary_points@, COORD_LIMIT as int),
            free_from <= old(mesh).vertices.len(),
            forall|a: &Point, b: &Point, c: &Point| min_angle.requires((a, b, c)),
            forall|a: &Point, b: &Point, c: &Point| aspect_ratio.requires((a, b, c)),
            forall|before: i64, after: i64, t: u64| accept_worse.requires((before, after, t)),
        ensures
            final(self).same_settings(*old(self)),
            final(mesh).vertices.len() == old(mesh).vertices.len(),
            workable(*final(mesh)),
            final(mesh).quads == old(mesh).quads,
            final(mesh).quad_indices == old(mesh).quad_indices,
            forall|i: int|
                #![trigger final(mesh).vertices[i]]
                0 <= i < old(mesh).vertices.len() && (i < free_from || near_boundary(
                    old(self).boundary_points@,
                    old(mesh).vertices[i],
                )) ==> final(mesh).vertices[i] == old(mesh).vertices[i],
            forall|i: int|
                #![trigger final(mesh).vertices[i]]
                0 <= i < old(mesh).vertices.len() ==> final(mesh).vertices[i]
                    == old(mesh).vertices[i] || allowed_position(
                    old(self).boundary_points@,
                    final(mesh).vertices[i],
                ),
            (final(mesh).tri_corners() == delaunay_corners(final(mesh).vertices@)
                && final(mesh).triangles_denormalized()) || (final(mesh).vertices@
                == old(mesh).vertices@ && final(mesh).triangle_indices@
                == old(mesh).triangle_indices@ && final(mesh).triangles@ == old(mesh).triangles@),
            no_free_vertex(old(self).boundary_points@, old(mesh).vertices@, free_from as int)
                ==> final(mesh).vertices@ == old(mesh).vertices@ && final(mesh).triangle_indices@
                == old(mesh).triangle_indices@ && final(mesh).triangles@ == old(mesh).triangles@,
            old(self).vertex_step(
                *min_angle,
                *aspect_ratio,
                *accept_worse,
                temperature,
                current_quality,
                free_from as int,
                old(mesh).vertices@,
                old(mesh).tri_corners(),
                final(mesh).vertices@,
                final(mesh).tri_corners(),
            ),
    {
        let ghost boundary = self.boundary_points@;
        let ghost vertices = mesh.vertices@;
        let ghost tris = mesh.tri_corners();
        let ghost radius = displacement_radius(temperature, 20) as int;
        if mesh.vertices.len() > free_from {
            let vertex_idx = random_index(&mut self.rng, free_from, mesh.vertices.len());
            let old_vertex = mesh.vertices[vertex_idx];
            assert(old_vertex.within(COORD_LIMIT as int));
            let perturbation_radius = radius_at(temperature, 20);
            let dx = random_between(&mut self.rng, -perturbation_radius, perturbation_radius);
            let dy = random_between(&mut self.rng, -perturbation_radius, perturbation_radius);
            let new_vertex = Point::new(old_vertex.x + dx, old_vertex.y + dy);
            assert(is_proposal(vertices, free_from as int, radius, vertex_idx as int, new_vertex));
            let ghost optimizer = *self;
            let _ = self.propose_move(
                mesh,
                vertex_idx,
                new_vertex,
                temperature,
                current_quality,
                min_angle,
                aspect_ratio,
                accept_worse,
            );
            proof {
                assert(near_boundary(boundary, vertices[vertex_idx as int]) ==> mesh.vertices@
                    == vertices);
                lemma_outcome_by_settings(
                    optimizer,
                    *old(self),
                    *min_angle,
                    *aspect_ratio,
                    *accept_worse,
                    temperature,
                    current_quality,
                    vertices,
                    tris,
                    vertex_idx as int,
                    new_vertex,
                    mesh.vertices@,
                    mesh.tri_corners(),
                );
            }
        }
    }

    /// The quality of the mesh, with the least angle and the aspect ratio of
    /// each triangle as `min_angle` and `aspect_ratio` give them.
    pub fn quality_of<N: Fn(&Point, &Point, &Point) -> u64, R: Fn(&Point, &Point, &Point) -> u64>(
        &self,
        mesh: &Mesh,
        min_angle: &N,
        aspect_ratio: &R,
    ) -> (q: i64)
        requires
            workable(*mesh),
            forall|a: &Point, b: &Point, c: &Point| min_angle.requires((a, b, c)),
            forall|a: &Point, b: &Point, c: &Point| aspect_ratio.requires((a, b, c)),
        ensures
            exists|angles: Seq<u64>, aspects: Seq<u64>|
                #![trigger self.enhanced_quality(mesh.vertices@, mesh.tri_corners(), angles, aspects)]
                gives_worths(mesh.vertices@, mesh.tri_corners(), angles, *min_angle)
                    && gives_worths(mesh.vertices@, mesh.tri_corners(), aspects, *aspect_ratio)
                    && q == self.enhanced_quality(
                    mesh.vertices@,
                    mesh.tri_corners(),
                    angles,
                    aspects,
                ),
    {
        let angles = measure_mesh(mesh, min_angle);
        let aspects = measure_mesh(mesh, aspect_ratio);
        self.calculate_enhanced_quality(mesh, angles.as_slice(), aspects.as_slice())
    }

    /// Anneals the vertices of a triangle mesh.  Each step picks one vertex
    /// behind the protected leading ones at random and proposes to displace
    /// it by a random amount of at most a twentieth of the temperature along
    /// each axis.  The proposal is dropped if the new position is not
    /// allowed or if the vertex lies on a boundary point.  Otherwise the
    /// vertex is moved and everything is triangulated again; the move stays
    /// if `quality` is higher than before or if `accept_worse`, given the
    /// quality before and after and the temperature, says so, and else the
    /// vertex is put back and everything is triangulated once more.  The
    /// temperature shrinks by the cooling rate after every step; annealing
    /// ends after `max_iterations` steps or when the temperature is a tenth
    /// or less.
    ///
    /// The outcome is that of the steps taken one after the other.  Whatever
    /// the two functions and the random numbers are: no vertex is added or
    /// removed, a protected vertex and a vertex on a boundary point stay
    /// exactly where they were, every vertex that is not where it was is at
    /// an allowed position, and unless nothing was ever moved the triangles
    /// are the triangulation of the vertices.
    pub fn anneal_vertices<
        N: Fn(&Point, &Point, &Point) -> u64,
        R: Fn(&Point, &Point, &Point) -> u64,
        A: Fn(i64, i64, u64) -> bool,
    >(&mut self, mesh: &mut Mesh, min_angle: &N, aspect_ratio: &R, accept_worse: &A)
        requires
            workable(*old(mesh)),
            all_within(old(self).boundary_points@, COORD_LIMIT as int),
            forall|a: &Point, b: &Point, c: &Point| min_angle.requires((a, b, c)),
            forall|a: &Point, b: &Point, c: &Point| aspect_ratio.requires((a, b, c)),
            forall|before: i64, after: i64, t: u64| accept_worse.requires((before, after, t)),
        ensures
            final(self).same_settings(*old(self)),
            final(mesh).vertices.len() == old(mesh).vertices.len(),
            workable(*final(mesh)),
            final(mesh).quads == old(mesh).quads,
            final(mesh).quad_indices == old(mesh).quad_indices,
            forall|i: int|
                #![trigger final(mesh).vertices[i]]
                0 <= i < old(mesh).vertices.len() && (i < protected_count(
                    old(self).boundary_points@,
                    old(mesh).vertices@,
                ) || near_boundary(old(self).boundary_points@, old(mesh).vertices[i]))
                    ==> final(mesh).vertices[i] == old(mesh).vertices[i],
            forall|i: int|
                #![trigger final(mesh).vertices[i]]
                0 <= i < old(mesh).vertices.len() ==> final(mesh).vertices[i]
                    == old(mesh).vertices[i] || allowed_position(
                    old(self).boundary_points@,
                    final(mesh).vertices[i],
                ),
            (final(mesh).tri_corners() == delaunay_corners(final(mesh).vertices@)
                && final(mesh).triangles_denormalized()) || (final(mesh).vertices@
                == old(mesh).vertices@ && final(mesh).triangle_indices@
                == old(mesh).triangle_indices@ && final(mesh).triangles@ == old(mesh).triangles@),
            old(mesh).triangles_denormalized() ==> final(mesh).triangles_denormalized(),
            no_free_vertex(
                old(self).boundary_points@,
                old(mesh).vertices@,
                protected_count(old(self).boundary_points@, old(mesh).vertices@),
            ) ==> final(mesh).vertices@ == old(mesh).vertices@ && final(mesh).triangle_indices@
                == old(mesh).triangle_indices@ && final(mesh).triangles@ == old(mesh).triangles@,
            annealed(
                old(self).boundary_points@,
                old(mesh).vertices@,
                old(mesh).tri_corners(),
                final(mesh).vertices@,
                final(mesh).tri_corners(),
            ),
            old(self).anneals_to(
                *min_angle,
                *aspect_ratio,
                *accept_worse,
                protected_count(old(self).boundary_points@, old(mesh).vertices@),
                old(self).temperature,
                old(self).max_iterations as nat,
                old(mesh).vertices@,
                old(mesh).tri_corners(),
                final(mesh).vertices@,
                final(mesh).tri_corners(),
            ),
    {
        let mut temperature: u64 = self.temperature;
        let mut iterations: u32 = 0;
        proof {
            lemma_input_points_are_working_points(mesh.vertices@);
            lemma_input_points_are_working_points(self.boundary_points@);
        }
        let boundary_count = self.count_boundary_vertices(mesh.vertices.as_slice());
        let ghost boundary = self.boundary_points@;
        let ghost start = mesh.vertices@;
        let ghost start_tris = mesh.tri_corners();
        let ghost optimizer = *self;
        let ghost steps = self.max_iterations;
        while iterations < self.max_iterations && temperature > FINAL_TEMPERATURE
            invariant
                iterations <= self.max_iterations,
                optimizer == *old(self),
                steps == self.max_iterations,
                start_tris == old(mesh).tri_corners(),
                forall|last_vertices: Seq<Point>, last_tris: Seq<Corners>|
                    #[trigger] optimizer.anneals_to(
                        *min_angle,
                        *aspect_ratio,
                        *accept_worse,
                        boundary_count as int,
                        temperature,
                        (steps - iterations) as nat,
                        mesh.vertices@,
                        mesh.tri_corners(),
                        last_vertices,
                        last_tris,
                    ) ==> optimizer.anneals_to(
                        *min_angle,
                        *aspect_ratio,
                        *accept_worse,
                        boundary_count as int,
                        optimizer.temperature,
                        steps as nat,
                        start,
                        start_tris,
                        last_vertices,
                        last_tris,
                    ),
                self.same_settings(*old(self)),
                boundary == self.boundary_points@,
                all_within(boundary, COORD_LIMIT as int),
                forall|a: &Point, b: &Point, c: &Point| min_angle.requires((a, b, c)),
                forall|a: &Point, b: &Point, c: &Point| aspect_ratio.requires((a, b, c)),
                forall|before: i64, after: i64, t: u64| accept_worse.requires((before, after, t)),
                start == old(mesh).vertices@,
                boundary_count as int == protected_count(boundary, start),
                boundary_count <= start.len(),
                mesh.vertices.len() == start.len(),
                workable(*mesh),
                mesh.quads == old(mesh).quads,
                mesh.quad_indices == old(mesh).quad_indices,
                forall|i: int|
                    #![trigger mesh.vertices[i]]
                    0 <= i < start.len() && (i < boundary_count || near_boundary(boundary, start[i]))
                        ==> mesh.vertices[i] == start[i],
                forall|i: int|
                    #![trigger mesh.vertices[i]]
                    0 <= i < start.len() ==> mesh.vertices[i] == start[i] || allowed_position(
                        boundary,
                        mesh.vertices[i],
                    ),
                (mesh.tri_corners() == delaunay_corners(mesh.vertices@)
                    && mesh.triangles_denormalized()) || (mesh.vertices@ == start
                    && mesh.triangle_indices@ == old(mesh).triangle_indices@ && mesh.triangles@
                    == old(mesh).triangles@),
                no_free_vertex(boundary, start, boundary_count as int) ==> mesh.vertices@ == start
                    && mesh.triangle_indices@ == old(mesh).triangle_indices@ && mesh.triangles@
                    == old(mesh).triangles@,
            decreases self.max_iterations - iterations,
        {
            let ghost vertices = mesh.vertices@;
            let ghost tris = mesh.tri_corners();
            let ghost budget = (steps - iterations) as nat;
            let ghost warm = temperature;
            let ghost current = *self;
            let current_quality = self.quality_of(mesh, min_angle, aspect_ratio);
            let ghost (angles, aspects) = choose|angles: Seq<u64>, aspects: Seq<u64>|
                #![trigger current.enhanced_quality(vertices, tris, angles, aspects)]
                gives_worths(vertices, tris, angles, *min_angle) && gives_worths(
                    vertices,
                    tris,
                    aspects,
                    *aspect_ratio,
                ) && current_quality == current.enhanced_quality(vertices, tris, angles, aspects);
            self.take_step(
                mesh,
                boundary_count,
                temperature,
                current_quality,
                min_angle,
                aspect_ratio,
                accept_worse,
            );
            temperature = cool(temperature, self.cooling_rate);
            iterations += 1;
            proof {
                let mid_vertices = mesh.vertices@;
                let mid_tris = mesh.tri_corners();
                current.lemma_quality_by_settings(
                    optimizer,
                    vertices,
                    tris,
                    angles,
                    aspects,
                    tris.len() as int,
                );
                lemma_step_by_settings(
                    current,
                    optimizer,
                    *min_angle,
                    *aspect_ratio,
                    *accept_worse,
                    warm,
                    current_quality,
                    boundary_count as int,
                    vertices,
                    tris,
                    mid_vertices,
                    mid_tris,
                );
                assert(Self::measured(vertices, tris, angles, aspects, *min_angle, *aspect_ratio));
                assert(optimizer.enhanced_quality(vertices, tris, angles, aspects) as i64
                    == current_quality);
                assert forall|last_vertices: Seq<Point>, last_tris: Seq<Corners>|
                    #[trigger] optimizer.anneals_to(
                        *min_angle,
                        *aspect_ratio,
                        *accept_worse,
                        boundary_count as int,
                        temperature,
                        (steps - iterations) as nat,
                        mid_vertices,
                        mid_tris,
                        last_vertices,
                        last_tris,
                    ) implies optimizer.anneals_to(
                    *min_angle,
                    *aspect_ratio,
                    *accept_worse,
                    boundary_count as int,
                    optimizer.temperature,
                    steps as nat,
                    start,
                    start_tris,
                    last_vertices,
                    last_tris,
                ) by {
                    assert((budget - 1) as nat == (steps - iterations) as nat);
                    assert(temperature == cooled(warm, optimizer.cooling_rate));
                    assert(optimizer.anneals_to(
                        *min_angle,
                        *aspect_ratio,
                        *accept_worse,
                        boundary_count as int,
                        warm,
                        budget,
                        vertices,
                        tris,
                        last_vertices,
                        last_tris,
                    ));
                }
            }
        }
        proof {
            assert(optimizer.anneals_to(
                *min_angle,
                *aspect_ratio,
                *accept_worse,
                boundary_count as int,
                temperature,
                (steps - iterations) as nat,
                mesh.vertices@,
                mesh.tri_corners(),
                mesh.vertices@,
                mesh.tri_corners(),
            ));
        }
    }

    /// Puts vertex `vertex_idx` at `point` and triangulates everything
    /// again.
    pub fn place_vertex(&self, mesh: &mut Mesh, vertex_idx: usize, point: Point)
        requires
            all_within(old(mesh).vertices@, COORD_LIMIT as int),
            vertex_idx < old(mesh).vertices.len(),
            point.within(COORD_LIMIT as int),
        ensures
            final(mesh).vertices@ == old(mesh).vertices@.update(vertex_idx as int, point),
            final(mesh).tri_corners() == delaunay_corners(final(mesh).vertices@),
            final(mesh).triangles_denormalized(),
            final(mesh).quads == old(mesh).quads,
            final(mesh).quad_indices == old(mesh).quad_indices,
            workable(*final(mesh)),
    {
        let ghost before = mesh.vertices@;
        mesh.vertices.set(vertex_idx, point);
        assert forall|i: int| 0 <= i < mesh.vertices.len() implies (
        #[trigger] mesh.vertices@[i]).within(COORD_LIMIT as int) by {
            if i != vertex_idx {
                assert(before[i].within(COORD_LIMIT as int));
            }
        }
        self.update_triangles_after_vertex_move(mesh, vertex_idx);
    }

    /// Optimises a triangle mesh: anneals its vertices, then refines the
    /// sizes of its triangles.  A mesh with quads, and a mesh without
    /// triangles, is left as it is.
    ///
    /// The outcome is the size refinement of what some run of annealing
    /// leaves behind; without a vertex that is free to move, it is the size
    /// refinement of the mesh as it was, and the mesh as it was where no
    /// triangle is too large or too small.  Whatever the two functions and the
    /// random numbers are, the vertices that were there stay in their order,
    /// and in every run in which size refinement meets no triangle below the
    /// smallest wanted area, each protected vertex and each vertex on a
    /// boundary point stays exactly where it was.
    pub fn optimize_mesh<
        N: Fn(&Point, &Point, &Point) -> u64,
        R: Fn(&Point, &Point, &Point) -> u64,
        A: Fn(i64, i64, u64) -> bool,
    >(&mut self, mesh: &mut Mesh, min_angle: &N, aspect_ratio: &R, accept_worse: &A) -> (r: Result<
        (),
        MeshError,
    >)
        requires
            workable(*old(mesh)),
            all_within(old(self).boundary_points@, COORD_LIMIT as int),
            forall|a: &Point, b: &Point, c: &Point| min_angle.requires((a, b, c)),
            forall|a: &Point, b: &Point, c: &Point| aspect_ratio.requires((a, b, c)),
            forall|before: i64, after: i64, t: u64| accept_worse.requires((before, after, t)),
        ensures
            r is Ok,
            final(self).same_settings(*old(self)),
            left_alone(*old(mesh)) ==> *final(mesh) == *old(mesh),
            final(mesh).quads == old(mesh).quads,
            final(mesh).quad_indices == old(mesh).quad_indices,
            final(mesh).vertices.len() >= old(mesh).vertices.len(),
            workable(*final(mesh)),
            old(mesh).triangles_denormalized() ==> final(mesh).triangles_denormalized(),
            old(self).min_area == 0 ==> forall|i: int|
                #![trigger final(mesh).vertices[i]]
                0 <= i < old(mesh).vertices.len() && (i < protected_count(
                    old(self).boundary_points@,
                    old(mesh).vertices@,
                ) || near_boundary(old(self).boundary_points@, old(mesh).vertices[i]))
                    ==> final(mesh).vertices[i] == old(mesh).vertices[i],
            no_free_vertex(
                old(self).boundary_points@,
                old(mesh).vertices@,
                protected_count(old(self).boundary_points@, old(mesh).vertices@),
            ) && !size_pass_changes(
                old(mesh).vertices@,
                old(mesh).tri_corners(),
                old(self).boundary_points@,
                old(self).target_area as int,
                old(self).min_area as int,
            ) ==> final(mesh).vertices@ == old(mesh).vertices@ && final(mesh).triangle_indices@
                == old(mesh).triangle_indices@ && final(mesh).triangles@ == old(mesh).triangles@,
            !left_alone(*old(mesh)) && no_free_vertex(
                old(self).boundary_points@,
                old(mesh).vertices@,
                protected_count(old(self).boundary_points@, old(mesh).vertices@),
            ) ==> (final(mesh).vertices@, final(mesh).tri_corners()) == size_refined(
                old(mesh).vertices@,
                old(mesh).tri_corners(),
                old(self).boundary_points@,
                old(self).target_area as int,
                old(self).min_area as int,
                MAX_SIZE_PASSES as nat,
            ),
            !left_alone(*old(mesh)) ==> exists|v: Seq<Point>, t: Seq<Corners>|
                #![trigger annealed(
                    old(self).boundary_points@,
                    old(mesh).vertices@,
                    old(mesh).tri_corners(),
                    v,
                    t,
                )]
                {
                    &&& annealed(
                        old(self).boundary_points@,
                        old(mesh).vertices@,
                        old(mesh).tri_corners(),
                        v,
                        t,
                    )
                    &&& old(self).anneals_to(
                        *min_angle,
                        *aspect_ratio,
                        *accept_worse,
                        protected_count(old(self).boundary_points@, old(mesh).vertices@),
                        old(self).temperature,
                        old(self).max_iterations as nat,
                        old(mesh).vertices@,
                        old(mesh).tri_corners(),
                        v,
                        t,
                    )
                    &&& (final(mesh).vertices@, final(mesh).tri_corners()) == size_refined(
                        v,
                        t,
                        old(self).boundary_points@,
                        old(self).target_area as int,
                        old(self).min_area as int,
                        MAX_SIZE_PASSES as nat,
                    )
                    &&& meets_no_small_triangle(
                        v,
                        t,
                        old(self).boundary_points@,
                        old(self).target_area as int,
                        old(self).min_area as int,
                        MAX_SIZE_PASSES as nat,
                    ) ==> forall|i: int|
                        #![trigger final(mesh).vertices[i]]
                        0 <= i < old(mesh).vertices.len() && (i < protected_count(
                            old(self).boundary_points@,
                            old(mesh).vertices@,
                        ) || near_boundary(old(self).boundary_points@, old(mesh).vertices[i]))
                            ==> final(mesh).vertices[i] == old(mesh).vertices[i]
                },
    {
        let has_quads = match &mesh.quads {
            Some(quads) => quads.len() > 0,
            None => false,
        };
        if has_quads {
            return Ok(());
        }
        if mesh.triangles.len() == 0 {
            return Ok(());
        }
        self.anneal_vertices(mesh, min_angle, aspect_ratio, accept_worse);
        let ghost between = mesh.vertices@;
        let ghost between_tris = mesh.tri_corners();
        let _ = self.adaptive_size_refinement(mesh);
        proof {
            let quiet = meets_no_small_triangle(
                between,
                between_tris,
                self.boundary_points@,
                self.target_area as int,
                self.min_area as int,
                MAX_SIZE_PASSES as nat,
            );
            if self.min_area == 0 {
                lemma_no_small_triangle_without_min_area(
                    between,
                    between_tris,
                    self.boundary_points@,
                    self.target_area as int,
                    MAX_SIZE_PASSES as nat,
                );
            }
            if quiet {
                assert forall|i: int|
                    #![trigger mesh.vertices[i]]
                    0 <= i < old(mesh).vertices.len() implies mesh.vertices[i] == between[i] by {
                    assert(mesh.vertices@.take(between.len() as int)[i] == between[i]);
                }
            }
            assert(annealed(
                old(self).boundary_points@,
                old(mesh).vertices@,
                old(mesh).tri_corners(),
                between,
                between_tris,
            ));
        }
        Ok(())
    }

    /// The number of leading vertices that annealing does not relocate.
    pub fn count_boundary_vertices(&self, vertices: &[Point]) -> (count: usize)
        requires
            all_within(self.boundary_points@, EXTENT as int),
            all_within(vertices@, EXTENT as int),
        ensures
            count as int == protected_count(self.boundary_points@, vertices@),
            count <= vertices.len(),
    {
        if self.boundary_points.len() == 0 {
            return 0;
        }
        let mut boundary_vertex_count: usize = 0;
        let mut i: usize = 0;
        while i < vertices.len()
            invariant
                i <= vertices.len(),
                all_within(self.boundary_points@, EXTENT as int),
                all_within(vertices@, EXTENT as int),
                boundary_vertex_count as int == boundary_matches(
                    self.boundary_points@,
                    vertices@,
                    i as int,
                ),
                boundary_vertex_count <= i,
            decreases vertices.len() - i,
        {
            if is_near_boundary(self.boundary_points.as_slice(), &vertices[i]) {
                boundary_vertex_count += 1;
            }
            i += 1;
        }
        if boundary_vertex_count < self.boundary_points.len() {
            let third: usize = vertices.len() / 3;
            if self.boundary_points.len() <= third {
                self.boundary_points.len()
            } else {
                third
            }
        } else {
            boundary_vertex_count
        }
    }

    /// Whether `point` is an allowed position: inside the boundary, or
    /// anywhere when no boundary is set.
    pub fn is_point_inside_boundary(&self, point: &Point) -> (r: bool)
        requires
            all_within(self.boundary_points@, EXTENT as int),
            point.within(EXTENT as int),
        ensures
            r == allowed_position(self.boundary_points@, *point),
    {
        if self.boundary_points.len() == 0 {
            return true;
        }
        point_in_slice(self.boundary_points.as_slice(), point)
    }

    /// Whether `vertex` lies on a boundary point.
    pub fn is_boundary_vertex(&self, vertex: &Point) -> (r: bool)
        requires
            all_within(self.boundary_points@, EXTENT as int),
            vertex.within(EXTENT as int),
        ensures
            r == near_boundary(self.boundary_points@, *vertex),
    {
        if self.boundary_points.len() == 0 {
            return false;
        }
        is_near_boundary(self.boundary_points.as_slice(), vertex)
    }

    /// The triangles whose area exceeds twice the target area.
    pub fn find_oversized_triangles(&self, mesh: &Mesh) -> (found: Vec<usize>)
        requires
            workable(*mesh),
        ensures
            found@ == oversized(
                mesh.tri_corners(),
                mesh.vertices@,
                self.target_area as int,
                mesh.triangle_indices.len() as int,
            ),
            forall|k: int| 0 <= k < found.len() ==> (#[trigger] found[k]) < mesh.triangle_indices.len(),
    {
        let max_allowed_area: u128 = 2 * (self.target_area as u128);
        let mut found: Vec<usize> = Vec::new();
        let mut i: usize = 0;
        proof {
            lemma_input_points_are_working_points(mesh.vertices@);
        }
        while i < mesh.triangle_indices.len()
            invariant
                i <= mesh.triangle_indices.len(),
                workable(*mesh),
                all_within(mesh.vertices@, EXTENT as int),
                max_allowed_area == 2 * self.target_area,
                found@ == oversized(
                    mesh.tri_corners(),
                    mesh.vertices@,
                    self.target_area as int,
                    i as int,
                ),
                forall|k: int| 0 <= k < found.len() ==> (#[trigger] found[k]) < i,
            decreases mesh.triangle_indices.len() - i,
        {
            let vertices = mesh.triangle_indices[i];
            assert(corners_in_bounds(mesh.tri_corners()[i as int], mesh.vertices.len() as int));
            assert(mesh.tri_corners()[i as int] == (vertices[0], vertices[1], vertices[2]));
            let triangle = Triangle::new(vertices, mesh.vertices.as_slice());
            let area = triangle.area(mesh.vertices.as_slice());
            if area > max_allowed_area {
                found.push(i);
            }
            i += 1;
        }
        found
    }

    /// The triangles whose area falls short of the minimum area.
    pub fn find_undersized_triangles(&self, mesh: &Mesh) -> (found: Vec<usize>)
        requires
            workable(*mesh),
        ensures
            found@ == undersized(
                mesh.tri_corners(),
                mesh.vertices@,
                self.min_area as int,
                mesh.triangle_indices.len() as int,
            ),
            forall|k: int| 0 <= k < found.len() ==> (#[trigger] found[k]) < mesh.triangle_indices.len(),
    {
        let mut found: Vec<usize> = Vec::new();
        let mut i: usize = 0;
        proof {
            lemma_input_points_are_working_points(mesh.vertices@);
        }
        while i < mesh.triangle_indices.len()
            invariant
                i <= mesh.triangle_indices.len(),
                workable(*mesh),
                all_within(mesh.vertices@, EXTENT as int),
                found@ == undersized(
                    mesh.tri_corners(),
                    mesh.vertices@,
                    self.min_area as int,
                    i as int,
                ),
                forall|k: int| 0 <= k < found.len() ==> (#[trigger] found[k]) < i,
            decreases mesh.triangle_indices.len() - i,
        {
            let vertices = mesh.triangle_indices[i];
            assert(corners_in_bounds(mesh.tri_corners()[i as int], mesh.vertices.len() as int));
            assert(mesh.tri_corners()[i as int] == (vertices[0], vertices[1], vertices[2]));
            let triangle = Triangle::new(vertices, mesh.vertices.as_slice());
            let area = triangle.area(mesh.vertices.as_slice());
            if area < self.min_area as u128 {
                found.push(i);
            }
            i += 1;
        }
        found
    }

    /// Splits a triangle: appends its centroid to the vertices, to be picked
    /// up by the next triangulation, if the centroid is an allowed position.
    /// Tells whether a vertex was added.
    pub fn split_triangle(&self, mesh: &mut Mesh, triangle_idx: usize) -> (r: Result<
        bool,
        MeshError,
    >)
        requires
            workable(*old(mesh)),
            all_within(self.boundary_points@, COORD_LIMIT as int),
        ensures
            r is Ok,
            final(mesh).vertices@ == split(
                old(mesh).vertices@,
                old(mesh).tri_corners(),
                self.boundary_points@,
                triangle_idx,
            ),
            r->Ok_0 == (final(mesh).vertices.len() > old(mesh).vertices.len()),
            final(mesh).triangle_indices@ == old(mesh).triangle_indices@,
            final(mesh).triangles@ == old(mesh).triangles@,
            final(mesh).quads == old(mesh).quads,
            final(mesh).quad_indices == old(mesh).quad_indices,
            workable(*final(mesh)),
    {
        if triangle_idx >= mesh.triangle_indices.len() {
            return Ok(false);
        }
        let triangle_vertices = mesh.triangle_indices[triangle_idx];
        proof {
            lemma_input_points_are_working_points(mesh.vertices@);
            lemma_input_points_are_working_points(self.boundary_points@);
            assert(corners_in_bounds(
                mesh.tri_corners()[triangle_idx as int],
                mesh.vertices.len() as int,
            ));
            assert(mesh.vertices@[triangle_vertices[0] as int].within(COORD_LIMIT as int));
            assert(mesh.vertices@[triangle_vertices[1] as int].within(COORD_LIMIT as int));
            assert(mesh.vertices@[triangle_vertices[2] as int].within(COORD_LIMIT as int));
        }
        let centroid = centroid(
            &mesh.vertices[triangle_vertices[0]],
            &mesh.vertices[triangle_vertices[1]],
            &mesh.vertices[triangle_vertices[2]],
        );
        if self.is_point_inside_boundary(&centroid) {
            let ghost before = *mesh;
            mesh.vertices.push(centroid);
            proof {
                assert forall|i: int| 0 <= i < mesh.triangle_indices.len() implies corners_in_bounds(
                    #[trigger] mesh.tri_corners()[i],
                    mesh.vertices.len() as int,
                ) by {
                    assert(corners_in_bounds(
                        before.tri_corners()[i],
                        before.vertices.len() as int,
                    ));
                }
                assert forall|i: int| 0 <= i < mesh.vertices.len() implies (
                #[trigger] mesh.vertices@[i]).within(COORD_LIMIT as int) by {
                    if i < before.vertices.len() {
                        assert(before.vertices@[i].within(COORD_LIMIT as int));
                    }
                }
            }
            Ok(true)
        } else {
            Ok(false)
        }
    }

    /// Handles a triangle that is too small: moves each of its corners a
    /// tenth of the way toward its centroid, unless the new position is not
    /// allowed.  Tells whether the index names a triangle.
    pub fn handle_small_triangle(&self, mesh: &mut Mesh, triangle_idx: usize) -> (r: Result<
        bool,
        MeshError,
    >)
        requires
            workable(*old(mesh)),
            all_within(self.boundary_points@, COORD_LIMIT as int),
        ensures
            r is Ok,
            final(mesh).vertices@ == small_handled(
                old(mesh).vertices@,
                old(mesh).tri_corners(),
                self.boundary_points@,
                triangle_idx,
            ),
            r->Ok_0 == (triangle_idx < old(mesh).triangle_indices.len()),
            final(mesh).vertices.len() == old(mesh).vertices.len(),
            final(mesh).triangle_indices@ == old(mesh).triangle_indices@,
            final(mesh).triangles@ == old(mesh).triangles@,
            final(mesh).quads == old(mesh).quads,
            final(mesh).quad_indices == old(mesh).quad_indices,
            workable(*final(mesh)),
    {
        if triangle_idx >= mesh.triangle_indices.len() {
            return Ok(false);
        }
        let triangle_vertices = mesh.triangle_indices[triangle_idx];
        let ghost c = mesh.tri_corners()[triangle_idx as int];
        let ghost start = mesh.vertices@;
        proof {
            lemma_input_points_are_working_points(mesh.vertices@);
            lemma_input_points_are_working_points(self.boundary_points@);
            assert(corners_in_bounds(c, mesh.vertices.len() as int));
            assert(c == (triangle_vertices[0], triangle_vertices[1], triangle_vertices[2]));
            assert(mesh.vertices@[triangle_vertices[0] as int].within(COORD_LIMIT as int));
            assert(mesh.vertices@[triangle_vertices[1] as int].within(COORD_LIMIT as int));
            assert(mesh.vertices@[triangle_vertices[2] as int].within(COORD_LIMIT as int));
        }
        let center = centroid(
            &mesh.vertices[triangle_vertices[0]],
            &mesh.vertices[triangle_vertices[1]],
            &mesh.vertices[triangle_vertices[2]],
        );
        let mut k: usize = 0;
        while k < 3
            invariant
                k <= 3,
                c == (triangle_vertices[0], triangle_vertices[1], triangle_vertices[2]),
                corners_in_bounds(c, mesh.vertices.len() as int),
                center.within(COORD_LIMIT as int),
                all_within(self.boundary_points@, COORD_LIMIT as int),
                mesh.vertices@ == with_nudges(start, self.boundary_points@, c, center, k as int),
                mesh.vertices.len() == start.len(),
                all_within(mesh.vertices@, COORD_LIMIT as int),
                mesh.triangle_indices@ == old(mesh).triangle_indices@,
                mesh.triangles@ == old(mesh).triangles@,
                mesh.quads == old(mesh).quads,
                mesh.quad_indices == old(mesh).quad_indices,
            decreases 3 - k,
        {
            let vertex_idx = triangle_vertices[k];
            assert(vertex_idx == corner(c, k as int));
            let vertex = mesh.vertices[vertex_idx];
            assert(vertex.within(COORD_LIMIT as int));
            proof {
                lemma_fraction_between(1, 10, center.x - vertex.x);
                lemma_fraction_between(1, 10, center.y - vertex.y);
                lemma_input_points_are_working_points(self.boundary_points@);
            }
            let new_x: i64 = vertex.x + (center.x - vertex.x) / 10;
            let new_y: i64 = vertex.y + (center.y - vertex.y) / 10;
            let new_point = Point::new(new_x, new_y);
            assert(new_point == nudged(vertex, center));
            if self.is_point_inside_boundary(&new_point) {
                let ghost before = mesh.vertices@;
                mesh.vertices.set(vertex_idx, new_point);
                assert forall|i: int| 0 <= i < mesh.vertices.len() implies (
                #[trigger] mesh.vertices@[i]).within(COORD_LIMIT as int) by {
                    if i != vertex_idx {
                        assert(before[i].within(COORD_LIMIT as int));
                    }
                }
            }
            k += 1;
        }
        proof {
            assert forall|i: int| 0 <= i < mesh.triangle_indices.len() implies corners_in_bounds(
                #[trigger] mesh.tri_corners()[i],
                mesh.vertices.len() as int,
            ) by {
                assert(corners_in_bounds(
                    old(mesh).tri_corners()[i],
                    old(mesh).vertices.len() as int,
                ));
            }
        }
        Ok(true)
    }

    /// Replaces the triangles of the mesh by the triangulation of its
    /// vertices.
    pub fn retriangulate_mesh(&self, mesh: &mut Mesh) -> (r: Result<(), MeshError>)
        requires
            all_within(old(mesh).vertices@, COORD_LIMIT as int),
        ensures
            r is Ok,
            final(mesh).vertices@ == old(mesh).vertices@,
            final(mesh).tri_corners() == delaunay_corners(old(mesh).vertices@),
            final(mesh).triangles_denormalized(),
            final(mesh).quads == old(mesh).quads,
            final(mesh).quad_indices == old(mesh).quad_indices,
            workable(*final(mesh)),
            forall|i: int|
                0 <= i < final(mesh).tri_corners().len() ==> corners_jacobian(
                    #[trigger] final(mesh).tri_corners()[i],
                    final(mesh).vertices@,
                ) >= 0,
    {
        let new_mesh = triangulate_points(copy_points(&mesh.vertices));
        mesh.vertices = new_mesh.vertices;
        mesh.triangle_indices = new_mesh.triangle_indices;
        mesh.triangles = new_mesh.triangles;
        Ok(())
    }

    /// Brings the triangles up to date after a vertex has moved: everything
    /// is triangulated again.
    fn update_triangles_after_vertex_move(&self, mesh: &mut Mesh, _moved_vertex_idx: usize)
        requires
            all_within(old(mesh).vertices@, COORD_LIMIT as int),
        ensures
            final(mesh).vertices@ == old(mesh).vertices@,
            final(mesh).tri_corners() == delaunay_corners(old(mesh).vertices@),
            final(mesh).triangles_denormalized(),
            final(mesh).quads == old(mesh).quads,
            final(mesh).quad_indices == old(mesh).quad_indices,
            workable(*final(mesh)),
    {
        let _ = self.retriangulate_mesh(mesh);
    }

    /// Refines the sizes of the triangles in at most three passes.  A pass
    /// splits every triangle larger than twice the target area and nudges
    /// the corners of every triangle smaller than the minimum area toward
    /// its centroid; if that changed anything, everything is triangulated
    /// again, and else refinement ends.
    #[verifier::rlimit(60)]
    pub fn adaptive_size_refinement(&self, mesh: &mut Mesh) -> (r: Result<(), MeshError>)
        requires
            workable(*old(mesh)),
            all_within(self.boundary_points@, COORD_LIMIT as int),
        ensures
            r is Ok,
            (final(mesh).vertices@, final(mesh).tri_corners()) == size_refined(
                old(mesh).vertices@,
                old(mesh).tri_corners(),
                self.boundary_points@,
                self.target_area as int,
                self.min_area as int,
                MAX_SIZE_PASSES as nat,
            ),
            final(mesh).quads == old(mesh).quads,
            final(mesh).quad_indices == old(mesh).quad_indices,
            old(mesh).triangles_denormalized() ==> final(mesh).triangles_denormalized(),
            workable(*final(mesh)),
            final(mesh).vertices.len() >= old(mesh).vertices.len(),
            meets_no_small_triangle(
                old(mesh).vertices@,
                old(mesh).tri_corners(),
                self.boundary_points@,
                self.target_area as int,
                self.min_area as int,
                MAX_SIZE_PASSES as nat,
            ) ==> final(mesh).vertices@.take(old(mesh).vertices.len() as int)
                == old(mesh).vertices@,
            !size_pass_changes(
                old(mesh).vertices@,
                old(mesh).tri_corners(),
                self.boundary_points@,
                self.target_area as int,
                self.min_area as int,
            ) ==> final(mesh).vertices@ == old(mesh).vertices@ && final(mesh).triangle_indices@
                == old(mesh).triangle_indices@ && final(mesh).triangles@ == old(mesh).triangles@,
    {
        let ghost goal = size_refined(
            mesh.vertices@,
            mesh.tri_corners(),
            self.boundary_points@,
            self.target_area as int,
            self.min_area as int,
            MAX_SIZE_PASSES as nat,
        );
        let mut iteration: usize = 0;
        let mut done = false;
        while iteration < MAX_SIZE_PASSES && !done
            invariant
                iteration <= MAX_SIZE_PASSES,
                workable(*mesh),
                all_within(self.boundary_points@, COORD_LIMIT as int),
                mesh.quads == old(mesh).quads,
                mesh.quad_indices == old(mesh).quad_indices,
                old(mesh).triangles_denormalized() ==> mesh.triangles_denormalized(),
                mesh.vertices.len() >= old(mesh).vertices.len(),
                iteration == 0 ==> mesh.vertices@ == old(mesh).vertices@ && mesh.triangle_indices@
                    == old(mesh).triangle_indices@ && mesh.triangles@ == old(mesh).triangles@,
                iteration > 0 ==> size_pass_changes(
                    old(mesh).vertices@,
                    old(mesh).tri_corners(),
                    self.boundary_points@,
                    self.target_area as int,
                    self.min_area as int,
                ),
                goal == size_refined(
                    mesh.vertices@,
                    mesh.tri_corners(),
                    self.boundary_points@,
                    self.target_area as int,
                    self.min_area as int,
                    if done {
                        0nat
                    } else {
                        (MAX_SIZE_PASSES - iteration) as nat
                    },
                ),
            decreases MAX_SIZE_PASSES - iteration + if done { 0int } else { 1int },
        {
            let mut changed = false;
            let oversized_triangles = self.find_oversized_triangles(mesh);
            let undersized_triangles = self.find_undersized_triangles(mesh);
            let ghost start = mesh.vertices@;
            let ghost tris = mesh.tri_corners();
            let ghost indices = mesh.triangle_indices@;
            let ghost copies = mesh.triangles@;
            let mut a: usize = 0;
            while a < oversized_triangles.len()
                invariant
                    a <= oversized_triangles.len(),
                    workable(*mesh),
                    all_within(self.boundary_points@, COORD_LIMIT as int),
                    mesh.triangle_indices@ == indices,
                    mesh.tri_corners() == tris,
                    mesh.triangles@ == copies,
                    mesh.quads == old(mesh).quads,
                    mesh.quad_indices == old(mesh).quad_indices,
                    mesh.vertices@ == with_splits(
                        start,
                        tris,
                        self.boundary_points@,
                        oversized_triangles@,
                        a as int,
                    ),
                    mesh.vertices.len() >= start.len(),
                    mesh.vertices@.take(start.len() as int) == start,
                    changed == (mesh.vertices.len() > start.len()),
                decreases oversized_triangles.len() - a,
            {
                let ghost before = mesh.vertices@;
                let split_result = self.split_triangle(mesh, oversized_triangles[a]);
                assert(mesh.vertices@.take(start.len() as int) =~= before.take(start.len() as int));
                match split_result {
                    Ok(true) => {
                        changed = true;
                    },
                    _ => {},
                }
                a += 1;
            }
            let ghost grown = mesh.vertices@;
            let mut b: usize = 0;
            while b < undersized_triangles.len()
                invariant
                    b <= undersized_triangles.len(),
                    workable(*mesh),
                    all_within(self.boundary_points@, COORD_LIMIT as int),
                    mesh.triangle_indices@ == indices,
                    mesh.tri_corners() == tris,
                    mesh.triangles@ == copies,
                    mesh.quads == old(mesh).quads,
                    mesh.quad_indices == old(mesh).quad_indices,
                    mesh.vertices@ == with_small_handled(
                        grown,
                        tris,
                        self.boundary_points@,
                        undersized_triangles@,
                        b as int,
                    ),
                    mesh.vertices.len() == grown.len(),
                    forall|k: int|
                        0 <= k < undersized_triangles.len() ==> (
                        #[trigger] undersized_triangles[k]) < indices.len(),
                    changed == (grown.len() > start.len() || b > 0),
                decreases undersized_triangles.len() - b,
            {
                let _ = self.handle_small_triangle(mesh, undersized_triangles[b]);
                changed = true;
                b += 1;
            }
            if !changed {
                done = true;
                assert(mesh.vertices@ =~= start);
            } else {
                let _ = self.retriangulate_mesh(mesh);
                iteration += 1;
            }
        }
        proof {
            if meets_no_small_triangle(
                old(mesh).vertices@,
                old(mesh).tri_corners(),
                self.boundary_points@,
                self.target_area as int,
                self.min_area as int,
                MAX_SIZE_PASSES as nat,
            ) {
                lemma_refinement_keeps_vertices(
                    old(mesh).vertices@,
                    old(mesh).tri_corners(),
                    self.boundary_points@,
                    self.target_area as int,
                    self.min_area as int,
                    MAX_SIZE_PASSES as nat,
                );
            }
        }
        Ok(())
    }
}

/// Size refinement from these vertices and triangles, in at most `passes`
/// passes, meets no triangle below the smallest wanted area: no pass finds
/// an undersized triangle.
pub open spec fn meets_no_small_triangle(
    vertices: Seq<Point>,
    tris: Seq<Corners>,
    boundary: Seq<Point>,
    target_area: int,
    min_area: int,
    passes: nat,
) -> bool
    decreases passes,
{
    passes == 0 || {
        &&& undersized(tris, vertices, min_area, tris.len() as int).len() == 0
        &&& size_pass_changes(vertices, tris, boundary, target_area, min_area) ==> {
            let next = size_pass(vertices, tris, boundary, target_area, min_area);
            meets_no_small_triangle(
                next,
                delaunay_corners(next),
                boundary,
                target_area,
                min_area,
                (passes - 1) as nat,
            )
        }
    }
}

/// Splitting triangles only appends vertices: those that were there stay
/// where they are.
pub proof fn lemma_splits_keep_vertices(
    vertices: Seq<Point>,
    tris: Seq<Corners>,
    boundary: Seq<Point>,
    list: Seq<usize>,
    k: int,
)
    ensures
        with_splits(vertices, tris, boundary, list, k).len() >= vertices.len(),
        with_splits(vertices, tris, boundary, list, k).take(vertices.len() as int) == vertices,
    decreases k,
{
    if k <= 0 {
        assert(vertices.take(vertices.len() as int) =~= vertices);
    } else {
        lemma_splits_keep_vertices(vertices, tris, boundary, list, k - 1);
        let before = with_splits(vertices, tris, boundary, list, k - 1);
        let after = with_splits(vertices, tris, boundary, list, k);
        assert(after.take(vertices.len() as int) =~= before.take(vertices.len() as int));
    }
}

/// Size refinement that meets no triangle below the smallest wanted area
/// moves no vertex: the vertices that were there are the first of the
/// refined mesh, each where it was.
pub proof fn lemma_refinement_keeps_vertices(
    vertices: Seq<Point>,
    tris: Seq<Corners>,
    boundary: Seq<Point>,
    target_area: int,
    min_area: int,
    passes: nat,
)
    requires
        meets_no_small_triangle(vertices, tris, boundary, target_area, min_area, passes),
    ensures
        size_refined(vertices, tris, boundary, target_area, min_area, passes).0.len()
            >= vertices.len(),
        size_refined(vertices, tris, boundary, target_area, min_area, passes).0.take(
            vertices.len() as int,
        ) == vertices,
    decreases passes,
{
    if passes == 0 || !size_pass_changes(vertices, tris, boundary, target_area, min_area) {
        assert(vertices.take(vertices.len() as int) =~= vertices);
    } else {
        let large = oversized(tris, vertices, target_area, tris.len() as int);
        let next = size_pass(vertices, tris, boundary, target_area, min_area);
        lemma_splits_keep_vertices(vertices, tris, boundary, large, large.len() as int);
        assert(next == with_splits(vertices, tris, boundary, large, large.len() as int));
        lemma_refinement_keeps_vertices(
            next,
            delaunay_corners(next),
            boundary,
            target_area,
            min_area,
            (passes - 1) as nat,
        );
        let last = size_refined(vertices, tris, boundary, target_area, min_area, passes).0;
        assert(last.take(vertices.len() as int) =~= last.take(next.len() as int).take(
            vertices.len() as int,
        ));
    }
}

/// With a smallest wanted area of zero, size refinement meets no triangle
/// below it.
pub proof fn lemma_no_small_triangle_without_min_area(
    vertices: Seq<Point>,
    tris: Seq<Corners>,
    boundary: Seq<Point>,
    target_area: int,
    passes: nat,
)
    ensures
        meets_no_small_triangle(vertices, tris, boundary, target_area, 0, passes),
    decreases passes,
{
    if passes > 0 {
        lemma_no_area_is_negative(tris, vertices, tris.len() as int);
        let next = size_pass(vertices, tris, boundary, target_area, 0);
        lemma_no_small_triangle_without_min_area(
            next,
            delaunay_corners(next),
            boundary,
            target_area,
            (passes - 1) as nat,
        );
    }
}

/// No area is negative: nothing is undersized for a minimum area of zero.
pub proof fn lemma_no_area_is_negative(tris: Seq<Corners>, vertices: Seq<Point>, n: int)
    ensures
        undersized(tris, vertices, 0, n).len() == 0,
    decreases n,
{
    if n > 0 {
        lemma_no_area_is_negative(tris, vertices, n - 1);
    }
}

/// Annealing needs a vertex that is free to move: where every vertex behind
/// the protected ones lies on a boundary point, every run leaves the
/// vertices and the triangles as they were, whatever the budget, the
/// temperature and the random numbers.
pub proof fn lemma_annealing_needs_a_free_vertex<
    N: Fn(&Point, &Point, &Point) -> u64,
    R: Fn(&Point, &Point, &Point) -> u64,
    A: Fn(i64, i64, u64) -> bool,
>(
    optimizer: GeneralAnnealingOptimizer,
    min_angle: N,
    aspect_ratio: R,
    accept_worse: A,
    free_from: int,
    temperature: u64,
    budget: nat,
    vertices: Seq<Point>,
    tris: Seq<Corners>,
    last_vertices: Seq<Point>,
    last_tris: Seq<Corners>,
)
    requires
        no_free_vertex(optimizer.boundary_points@, vertices, free_from),
        optimizer.anneals_to(
            min_angle,
            aspect_ratio,
            accept_worse,
            free_from,
            temperature,
            budget,
            vertices,
            tris,
            last_vertices,
            last_tris,
        ),
    ensures
        last_vertices == vertices,
        last_tris == tris,
    decreases budget,
{
    if budget != 0 && temperature > FINAL_TEMPERATURE {
        let (angles, aspects) = choose|angles: Seq<u64>, aspects: Seq<u64>| #[trigger]
            GeneralAnnealingOptimizer::measured(
                vertices,
                tris,
                angles,
                aspects,
                min_angle,
                aspect_ratio,
            ) && exists|mid_vertices: Seq<Point>, mid_tris: Seq<Corners>| #[trigger]
                optimizer.vertex_step(
                    min_angle,
                    aspect_ratio,
                    accept_worse,
                    temperature,
                    optimizer.enhanced_quality(vertices, tris, angles, aspects) as i64,
                    free_from,
                    vertices,
                    tris,
                    mid_vertices,
                    mid_tris,
                ) && optimizer.anneals_to(
                    min_angle,
                    aspect_ratio,
                    accept_worse,
                    free_from,
                    cooled(temperature, optimizer.cooling_rate),
                    (budget - 1) as nat,
                    mid_vertices,
                    mid_tris,
                    last_vertices,
                    last_tris,
                );
        let quality = optimizer.enhanced_quality(vertices, tris, angles, aspects) as i64;
        let (mid_vertices, mid_tris) = choose|mid_vertices: Seq<Point>, mid_tris: Seq<Corners>|
         #[trigger]
            optimizer.vertex_step(
                min_angle,
                aspect_ratio,
                accept_worse,
                temperature,
                quality,
                free_from,
                vertices,
                tris,
                mid_vertices,
                mid_tris,
            ) && optimizer.anneals_to(
                min_angle,
                aspect_ratio,
                accept_worse,
                free_from,
                cooled(temperature, optimizer.cooling_rate),
                (budget - 1) as nat,
                mid_vertices,
                mid_tris,
                last_vertices,
                last_tris,
            );
        if vertices.len() > free_from {
            let radius = displacement_radius(temperature, 20) as int;
            let (index, target) = choose|index: int, target: Point| #[trigger]
                is_proposal(vertices, free_from, radius, index, target) && optimizer.move_outcome(
                    min_angle,
                    aspect_ratio,
                    accept_worse,
                    temperature,
                    quality,
                    vertices,
                    tris,
                    index,
                    target,
                    mid_vertices,
                    mid_tris,
                );
            assert(near_boundary(optimizer.boundary_points@, vertices[index]));
        }
        lemma_annealing_needs_a_free_vertex(
            optimizer,
            min_angle,
            aspect_ratio,
            accept_worse,
            free_from,
            cooled(temperature, optimizer.cooling_rate),
            (budget - 1) as nat,
            mid_vertices,
            mid_tris,
            last_vertices,
            last_tris,
        );
    }
}

/// The outcome of a proposal depends on the settings of the optimiser only.
pub proof fn lemma_outcome_by_settings<
    N: Fn(&Point, &Point, &Point) -> u64,
    R: Fn(&Point, &Point, &Point) -> u64,
    A: Fn(i64, i64, u64) -> bool,
>(
    one: GeneralAnnealingOptimizer,
    other: GeneralAnnealingOptimizer,
    min_angle: N,
    aspect_ratio: R,
    accept_worse: A,
    temperature: u64,
    current_quality: i64,
    vertices: Seq<Point>,
    tris: Seq<Corners>,
    index: int,
    target: Point,
    next_vertices: Seq<Point>,
    next_tris: Seq<Corners>,
)
    requires
        one.same_settings(other),
        one.move_outcome(
            min_angle,
            aspect_ratio,
            accept_worse,
            temperature,
            current_quality,
            vertices,
            tris,
            index,
            target,
            next_vertices,
            next_tris,
        ),
    ensures
        other.move_outcome(
            min_angle,
            aspect_ratio,
            accept_worse,
            temperature,
            current_quality,
            vertices,
            tris,
            index,
            target,
            next_vertices,
            next_tris,
        ),
{
    if target.within(COORD_LIMIT as int) && allowed_position(one.boundary_points@, target)
        && !near_boundary(one.boundary_points@, vertices[index]) {
        let moved = vertices.update(index, target);
        let moved_tris = delaunay_corners(moved);
        let (angles, aspects, kept) = choose|angles: Seq<u64>, aspects: Seq<u64>, kept: bool|
         #[trigger]
            one.move_judged(
                min_angle,
                aspect_ratio,
                accept_worse,
                temperature,
                current_quality,
                moved,
                moved_tris,
                angles,
                aspects,
                kept,
            ) && next_vertices == if kept {
                moved
            } else {
                vertices
            };
        one.lemma_quality_by_settings(
            other,
            moved,
            moved_tris,
            angles,
            aspects,
            moved_tris.len() as int,
        );
        assert(other.move_judged(
            min_angle,
            aspect_ratio,
            accept_worse,
            temperature,
            current_quality,
            moved,
            moved_tris,
            angles,
            aspects,
            kept,
        ));
    }
}

/// A step of annealing depends on the settings of the optimiser only.
pub proof fn lemma_step_by_settings<
    N: Fn(&Point, &Point, &Point) -> u64,
    R: Fn(&Point, &Point, &Point) -> u64,
    A: Fn(i64, i64, u64) -> bool,
>(
    one: GeneralAnnealingOptimizer,
    other: GeneralAnnealingOptimizer,
    min_angle: N,
    aspect_ratio: R,
    accept_worse: A,
    temperature: u64,
    current_quality: i64,
    free_from: int,
    vertices: Seq<Point>,
    tris: Seq<Corners>,
    next_vertices: Seq<Point>,
    next_tris: Seq<Corners>,
)
    requires
        one.same_settings(other),
        one.vertex_step(
            min_angle,
            aspect_ratio,
            accept_worse,
            temperature,
            current_quality,
            free_from,
            vertices,
            tris,
            next_vertices,
            next_tris,
        ),
    ensures
        other.vertex_step(
            min_angle,
            aspect_ratio,
            accept_worse,
            temperature,
            current_quality,
            free_from,
            vertices,
            tris,
            next_vertices,
            next_tris,
        ),
{
    if vertices.len() > free_from {
        let radius = displacement_radius(temperature, 20) as int;
        let (index, target) = choose|index: int, target: Point| #[trigger]
            is_proposal(vertices, free_from, radius, index, target) && one.move_outcome(
                min_angle,
                aspect_ratio,
                accept_worse,
                temperature,
                current_quality,
                vertices,
                tris,
                index,
                target,
                next_vertices,
                next_tris,
            );
        lemma_outcome_by_settings(
            one,
            other,
            min_angle,
            aspect_ratio,
            accept_worse,
            temperature,
            current_quality,
            vertices,
            tris,
            index,
            target,
            next_vertices,
            next_tris,
        );
        assert(is_proposal(vertices, free_from, radius, index, target));
    }
}

} // verus!
