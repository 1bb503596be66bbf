//! A second mesher, built on the triangulation of the `delaunator` crate:
//! it densifies a polygon, fills it with lattice points, triangulates, and
//! can refine and smooth the outcome.

use std::collections::{HashMap, HashSet};
use vstd::prelude::*;
use vstd::std_specs::iter::IteratorSpec;
use crate::delaunay::{bounding_box, copy_points, lemma_bounding_box, DelaunayTriangulator};
use crate::elements::{corner, Corners};
use crate::outside::{delaunator_triangles, outside_triangulation};
use crate::geometry::{
    all_within, boundary_samples, centroid_spec, divide_toward_zero, grid_circumcenter,
    inside_polygon, point_in_slice, points_within, signed_trunc_div, subdivide_boundary, Point,
    Triangle, COORD_LIMIT, EXTENT,
};

verus! {

/// The first `n` points of a flat list of coordinates, two a point.
pub open spec fn coordinate_pairs(coordinates: Seq<i64>, n: int) -> Seq<Point>
    decreases n,
{
    if n <= 0 {
        Seq::empty()
    } else {
        coordinate_pairs(coordinates, n - 1).push(
            Point { x: coordinates[2 * (n - 1)], y: coordinates[2 * (n - 1) + 1] },
        )
    }
}

/// Triangle `k` of a flat list of indices.
pub open spec fn raw_corners(raw: Seq<usize>, k: int) -> Corners {
    (raw[3 * k], raw[3 * k + 1], raw[3 * k + 2])
}

/// The centroid of three points named by a corner triple.
pub open spec fn center_of(c: Corners, points: Seq<Point>) -> Point {
    centroid_spec(points[c.0 as int], points[c.1 as int], points[c.2 as int])
}

/// Among the first `n` triangles of a flat list, those whose centroid lies
/// inside the polygon, in order.
pub open spec fn center_filtered(
    raw: Seq<usize>,
    points: Seq<Point>,
    polygon: Seq<Point>,
    n: int,
) -> Seq<Corners>
    decreases n,
{
    if n <= 0 {
        Seq::empty()
    } else {
        let before = center_filtered(raw, points, polygon, n - 1);
        if inside_polygon(polygon, center_of(raw_corners(raw, n - 1), points)) {
            before.push(raw_corners(raw, n - 1))
        } else {
            before
        }
    }
}

/// The triangles of the mesher for a point list and a polygon: the outside
/// triangulation of the points, less the triangles whose centroid lies
/// outside the polygon.
pub open spec fn meshed_triangles(points: Seq<Point>, polygon: Seq<Point>) -> Seq<Corners> {
    center_filtered(
        delaunator_triangles(points),
        points,
        polygon,
        delaunator_triangles(points).len() as int / 3,
    )
}

/// The triangles after a triangulation: those of the mesher for the points
/// and the polygon, or, with fewer than three points, the triangles that
/// were there.
pub open spec fn retriangulated(points: Seq<Point>, polygon: Seq<Point>, tris: Seq<Corners>) -> Seq<
    Corners,
> {
    if points.len() < 3 {
        tris
    } else {
        meshed_triangles(points, polygon)
    }
}

/// The lattice points of one column that lie inside the polygon: from `y`
/// on, every `step` units below `max_y`, at `x`.
pub open spec fn grid_column(polygon: Seq<Point>, x: int, y: int, step: int, max_y: int) -> Seq<
    Point,
>
    decreases
        if y < max_y {
            max_y - y
        } else {
            0
        },
{
    if y >= max_y || step < 1 {
        Seq::empty()
    } else {
        let rest = grid_column(polygon, x, y + step, step, max_y);
        let p = Point { x: x as i64, y: y as i64 };
        if inside_polygon(polygon, p) {
            seq![p] + rest
        } else {
            rest
        }
    }
}

/// The columns of the lattice from `x` on, `step` apart, below `max_x`.
pub open spec fn grid_columns(
    polygon: Seq<Point>,
    x: int,
    min_y: int,
    max_x: int,
    max_y: int,
    step: int,
) -> Seq<Point>
    decreases
        if x < max_x {
            max_x - x
        } else {
            0
        },
{
    if x >= max_x || step < 1 {
        Seq::empty()
    } else {
        grid_column(polygon, x, min_y, step, max_y) + grid_columns(
            polygon,
            x + step,
            min_y,
            max_x,
            max_y,
            step,
        )
    }
}

/// The interior points for a polygon and a density: the lattice that starts
/// at the lower bounds of the polygon, column by column, as far as it lies
/// inside the polygon.
pub open spec fn interior_points(polygon: Seq<Point>, density: int) -> Seq<Point> {
    let b = bounding_box(polygon);
    grid_columns(polygon, b.0 as int, b.2 as int, b.1 as int, b.3 as int, density)
}

/// The points of the mesh for a polygon and a density: the densified polygon,
/// then the interior points.
pub open spec fn meshed_points(polygon: Seq<Point>, density: int) -> Seq<Point> {
    boundary_samples(polygon, density, polygon.len() as int) + interior_points(polygon, density)
}

/// What the first `k` corners of triangle `t` add to the neighbours of
/// vertex `v`: for each of these corners that is `v`, the other two corners.
pub open spec fn corner_neighbors(t: Corners, v: int, k: int) -> Seq<usize>
    decreases k,
{
    if k <= 0 {
        Seq::empty()
    } else {
        let before = corner_neighbors(t, v, k - 1);
        if corner(t, k - 1) == v {
            before.push(corner(t, k)).push(corner(t, k + 1))
        } else {
            before
        }
    }
}

/// The neighbours of vertex `v` in the first `n` triangles, in the order of
/// the triangles, each as often as it is found.
pub open spec fn neighbors_of(tris: Seq<Corners>, v: int, n: int) -> Seq<usize>
    decreases n,
{
    if n <= 0 {
        Seq::empty()
    } else {
        neighbors_of(tris, v, n - 1) + corner_neighbors(tris[n - 1], v, 3)
    }
}

/// The sums of the coordinates of the points that the first `m` entries of
/// a list name; an entry that names no point adds nothing.
pub open spec fn coordinate_sums(points: Seq<Point>, list: Seq<usize>, m: int) -> (int, int)
    decreases m,
{
    if m <= 0 {
        (0, 0)
    } else {
        let before = coordinate_sums(points, list, m - 1);
        if list[m - 1] < points.len() {
            (before.0 + points[list[m - 1] as int].x, before.1 + points[list[m - 1] as int].y)
        } else {
            before
        }
    }
}

/// The sums of the coordinates of the neighbours of vertex `v` in the first
/// `n` triangles, and their number.
pub open spec fn neighbor_sums(points: Seq<Point>, tris: Seq<Corners>, v: int, n: int) -> (
    int,
    int,
    int,
) {
    let list = neighbors_of(tris, v, n);
    let sums = coordinate_sums(points, list, list.len() as int);
    (sums.0, sums.1, list.len() as int)
}

/// The list that a map holds for a vertex; the empty list where it holds
/// none.
pub open spec fn held(lists: Map<usize, Vec<usize>>, v: usize) -> Seq<usize> {
    if lists.contains_key(v) {
        lists[v]@
    } else {
        Seq::empty()
    }
}

/// Whether smoothing moves vertex `v`: it is no boundary point and has a
/// neighbour.
pub open spec fn smoothing_moves(
    points: Seq<Point>,
    tris: Seq<Corners>,
    boundary_count: int,
    v: int,
) -> bool {
    v >= boundary_count && neighbor_sums(points, tris, v, tris.len() as int).2 > 0
}

/// Where smoothing puts vertex `v`: at the mean of its neighbours, each
/// coordinate rounded toward zero, if it moves at all.
pub open spec fn smoothed_point(
    points: Seq<Point>,
    tris: Seq<Corners>,
    boundary_count: int,
    v: int,
) -> Point {
    let sums = neighbor_sums(points, tris, v, tris.len() as int);
    if smoothing_moves(points, tris, boundary_count, v) {
        Point {
            x: signed_trunc_div(sums.0, sums.2) as i64,
            y: signed_trunc_div(sums.1, sums.2) as i64,
        }
    } else {
        points[v]
    }
}

/// The points after one pass of smoothing.
pub open spec fn smooth_pass(points: Seq<Point>, tris: Seq<Corners>, boundary_count: int) -> Seq<
    Point,
> {
    Seq::new(points.len(), |v: int| smoothed_point(points, tris, boundary_count, v))
}

/// Whether a pass of smoothing moves any vertex.
pub open spec fn smoothing_moves_any(
    points: Seq<Point>,
    tris: Seq<Corners>,
    boundary_count: int,
) -> bool {
    exists|v: int|
        0 <= v < points.len() && #[trigger] smoothing_moves(points, tris, boundary_count, v)
}

/// The points and triangles after at most `iterations` passes of smoothing.
/// After every pass the points are triangulated again; the first pass that
/// moves nothing is the last.
pub open spec fn smoothed(
    points: Seq<Point>,
    tris: Seq<Corners>,
    boundary_count: int,
    iterations: nat,
) -> (Seq<Point>, Seq<Corners>)
    decreases iterations,
{
    if iterations == 0 {
        (points, tris)
    } else {
        let next = smooth_pass(points, tris, boundary_count);
        let fresh = retriangulated(next, points.take(boundary_count), tris);
        if smoothing_moves_any(points, tris, boundary_count) {
            smoothed(next, fresh, boundary_count, (iterations - 1) as nat)
        } else {
            (next, fresh)
        }
    }
}

/// What makes a triangle bad: its least angle, or its aspect ratio.
#[derive(Clone, Copy, Debug, PartialEq, Eq, Structural)]
pub enum Metric {
    Angle,
    Aspect,
}

/// The metric that a name stands for: `angle` or `aspect`; none for any
/// other name.
pub open spec fn metric_named(name: Seq<char>) -> Option<Metric> {
    if name == "angle"@ {
        Some(Metric::Angle)
    } else if name == "aspect"@ {
        Some(Metric::Aspect)
    } else {
        None
    }
}

impl Metric {
    /// The metric that a name stands for.
    pub fn from_name(name: &str) -> (m: Option<Metric>)
        ensures
            m == metric_named(name@),
    {
        let given = name.to_owned();
        if given == "angle".to_owned() {
            Some(Metric::Angle)
        } else if given == "aspect".to_owned() {
            Some(Metric::Aspect)
        } else {
            None
        }
    }
}

/// A straight angle, in millionths of a degree: no angle of a triangle
/// reaches it.
pub const STRAIGHT_ANGLE: i64 = 180_000_000;

/// A triangle with measure `q` is bad: its least angle is below the
/// threshold, or its aspect ratio above it.  A least angle of a straight
/// angle or more, and an aspect ratio of zero or less, is never bad.
pub open spec fn is_bad_measure(metric: Metric, threshold: i64, q: i64) -> bool {
    match metric {
        Metric::Angle => q < threshold && q < STRAIGHT_ANGLE,
        Metric::Aspect => q > threshold && q > 0,
    }
}

/// Measure `q` is worse than measure `than`: a smaller least angle, a larger
/// aspect ratio.
pub open spec fn is_worse_measure(metric: Metric, q: i64, than: i64) -> bool {
    match metric {
        Metric::Angle => q < than,
        Metric::Aspect => q > than,
    }
}

/// `choice` is the worst triangle for the metric: the first bad triangle
/// than which no bad triangle is worse; none when no triangle is bad or the
/// metric is not known.
pub open spec fn is_worst_choice(
    metric: Option<Metric>,
    threshold: i64,
    qualities: Seq<i64>,
    choice: Option<usize>,
) -> bool {
    match (metric, choice) {
        (None, None) => true,
        (None, Some(_)) => false,
        (Some(m), None) => forall|i: int|
            0 <= i < qualities.len() ==> !is_bad_measure(m, threshold, #[trigger] qualities[i]),
        (Some(m), Some(w)) => {
            &&& w < qualities.len()
            &&& is_bad_measure(m, threshold, qualities[w as int])
            &&& forall|i: int|
                0 <= i < qualities.len() && is_bad_measure(m, threshold, #[trigger] qualities[i])
                    ==> !is_worse_measure(m, qualities[i], qualities[w as int])
            &&& forall|i: int|
                0 <= i < w && is_bad_measure(m, threshold, #[trigger] qualities[i])
                    ==> is_worse_measure(m, qualities[w as int], qualities[i])
        },
    }
}

/// Picks the worst triangle from the measures of all triangles.
pub fn find_worst_triangle(metric: &str, threshold: i64, qualities: &[i64]) -> (worst: Option<usize>)
    ensures
        is_worst_choice(metric_named(metric@), threshold, qualities@, worst),
{
    let m = match Metric::from_name(metric) {
        Some(m) => m,
        None => {
            return None;
        },
    };
    let mut worst_triangle: Option<usize> = None;
    let mut worst_quality: i64 = match m {
        Metric::Angle => STRAIGHT_ANGLE,
        Metric::Aspect => 0,
    };
    let mut i: usize = 0;
    while i < qualities.len()
        invariant
            i <= qualities.len(),
            worst_triangle is Some ==> worst_triangle->Some_0 < i && worst_quality
                == qualities[worst_triangle->Some_0 as int],
            worst_triangle is None ==> worst_quality == match m {
                Metric::Angle => STRAIGHT_ANGLE,
                Metric::Aspect => 0i64,
            },
            is_worst_choice(Some(m), threshold, qualities@.take(i as int), worst_triangle),
        decreases qualities.len() - i,
    {
        let quality = qualities[i];
        let is_bad = match m {
            Metric::Angle => quality < threshold,
            Metric::Aspect => quality > threshold,
        };
        let ghost before = qualities@.take(i as int);
        let ghost now = qualities@.take(i as int + 1);
        assert(forall|k: int| 0 <= k < i ==> now[k] == before[k]);
        assert(now[i as int] == quality);
        if is_bad {
            let is_worse = match m {
                Metric::Angle => quality < worst_quality,
                Metric::Aspect => quality > worst_quality,
            };
            if is_worse {
                worst_quality = quality;
                worst_triangle = Some(i);
            }
        }
        i += 1;
    }
    assert(qualities@.take(qualities.len() as int) =~= qualities@);
    worst_triangle
}

/// The sum of the first `n` measures.
pub open spec fn quality_sum(qualities: Seq<i64>, n: int) -> int
    decreases n,
{
    if n <= 0 {
        0
    } else {
        quality_sum(qualities, n - 1) + qualities[n - 1]
    }
}

/// The mean measure of a mesh of `triangles` triangles: the mean of the
/// measures rounded toward zero, and zero when there is no triangle, no
/// measure, or no known metric.
pub open spec fn average_quality(metric: Option<Metric>, triangles: int, qualities: Seq<i64>) -> int {
    if triangles == 0 || qualities.len() == 0 || metric is None {
        0
    } else {
        signed_trunc_div(quality_sum(qualities, qualities.len() as int), qualities.len() as int)
    }
}

/// `qualities` holds, for each triangle, what `measure` gives for its three
/// corner points.
pub open spec fn gives_measures<M: Fn(&Point, &Point, &Point) -> i64>(
    points: Seq<Point>,
    tris: Seq<Corners>,
    qualities: Seq<i64>,
    measure: M,
) -> bool {
    &&& qualities.len() == tris.len()
    &&& forall|i: int|
        0 <= i < tris.len() ==> measure.ensures(
            (&points[tris[i].0 as int], &points[tris[i].1 as int], &points[tris[i].2 as int]),
            #[trigger] qualities[i],
        )
}

/// The points and triangles after the chosen triangle was refined: its
/// refinement point appended and everything triangulated again; none when
/// no triangle is chosen, the choice names no triangle, or the triangle has
/// no refinement point.
pub open spec fn refined_at(
    points: Seq<Point>,
    tris: Seq<Corners>,
    polygon: Seq<Point>,
    choice: Option<usize>,
) -> Option<(Seq<Point>, Seq<Corners>)> {
    match choice {
        Some(w) => if w < tris.len() {
            match refinement_point(points, polygon, tris[w as int]) {
                Some(p) => Some((points.push(p), retriangulated(points.push(p), polygon, tris))),
                None => None,
            }
        } else {
            None
        },
        None => None,
    }
}

/// What a round of refinement goes by: the measures of all triangles as
/// `measure` gives them, and the worst triangle among them.
pub open spec fn is_round<M: Fn(&Point, &Point, &Point) -> i64>(
    measure: M,
    metric: Option<Metric>,
    threshold: i64,
    points: Seq<Point>,
    tris: Seq<Corners>,
    qualities: Seq<i64>,
    choice: Option<usize>,
) -> bool {
    gives_measures(points, tris, qualities, measure) && is_worst_choice(
        metric,
        threshold,
        qualities,
        choice,
    )
}

/// Refinement with a budget of `budget` rounds leads from the points and
/// triangles `points`, `tris` to `last_points`, `last_tris` and adds `count`
/// points.  Each round measures the triangles and refines the worst one;
/// refinement ends when the budget is spent, or with the first round whose
/// worst triangle cannot be refined, which changes nothing.
pub open spec fn refines_to<M: Fn(&Point, &Point, &Point) -> i64>(
    measure: M,
    metric: Option<Metric>,
    threshold: i64,
    polygon: Seq<Point>,
    budget: nat,
    points: Seq<Point>,
    tris: Seq<Corners>,
    last_points: Seq<Point>,
    last_tris: Seq<Corners>,
    count: nat,
) -> bool
    decreases budget,
{
    if budget == 0 {
        last_points == points && last_tris == tris && count == 0
    } else {
        exists|qualities: Seq<i64>, choice: Option<usize>| #[trigger]
            is_round(measure, metric, threshold, points, tris, qualities, choice) && match refined_at(
                points,
                tris,
                polygon,
                choice,
            ) {
                None => last_points == points && last_tris == tris && count == 0,
                Some(next) => count > 0 && refines_to(
                    measure,
                    metric,
                    threshold,
                    polygon,
                    (budget - 1) as nat,
                    next.0,
                    next.1,
                    last_points,
                    last_tris,
                    (count - 1) as nat,
                ),
            }
    }
}

/// The corner triples of a list of bare triangles.
pub open spec fn bare_corners(triangles: Seq<Triangle>) -> Seq<Corners> {
    triangles.map_values(|t: Triangle| t.corners())
}

/// The indices below `n`.
pub open spec fn leading(n: nat) -> Set<usize> {
    Set::new(|i: usize| i < n)
}

/// There are `n` indices below `n`.
pub proof fn lemma_leading_count(n: nat)
    requires
        n <= usize::MAX,
    ensures
        leading(n).finite(),
        leading(n).len() == n,
    decreases n,
{
    if n == 0 {
        assert(leading(n) =~= Set::<usize>::empty());
    } else {
        lemma_leading_count((n - 1) as nat);
        assert(leading(n) =~= leading((n - 1) as nat).insert((n - 1) as usize));
    }
}

/// The state of the mesher: the points, the triangles, and the indices of
/// the points that are the boundary.  The boundary points lead the point
/// list, in order.
pub struct MeshCore {
    pub points: Vec<Point>,
    pub triangles: Vec<Triangle>,
    pub boundary_points: HashSet<usize>,
}

impl MeshCore {
    /// The number of boundary points.
    pub open spec fn boundary_count(self) -> nat {
        self.boundary_points@.len()
    }

    /// The boundary points are the leading points: the set of their indices
    /// holds just the indices below its size, which name points.
    pub open spec fn boundary_leads(self) -> bool {
        &&& self.boundary_points@ == leading(self.boundary_count())
        &&& self.boundary_count() <= self.points.len()
    }

    /// The boundary points lead the point list, every point lies in the
    /// input range, and every triangle names three points.
    pub open spec fn wf(self) -> bool {
        &&& self.boundary_leads()
        &&& all_within(self.points@, COORD_LIMIT as int)
        &&& forall|i: int|
            0 <= i < self.triangles.len() ==> (#[trigger] self.triangles[i]).in_bounds(
                self.points.len() as int,
            )
    }

    /// The boundary polygon: the leading points.
    pub open spec fn polygon(self) -> Seq<Point> {
        self.points@.take(self.boundary_count() as int)
    }

    /// A mesher without points.
    pub fn new() -> (m: Self)
        ensures
            m.points@.len() == 0,
            m.triangles@.len() == 0,
            m.boundary_points@ == Set::<usize>::empty(),
            m.wf(),
    {
        let m = Self { points: Vec::new(), triangles: Vec::new(), boundary_points: HashSet::new() };
        assert(m.boundary_points@ =~= leading(0));
        m
    }

    /// Forgets every point and triangle.
    pub fn clear(&mut self)
        ensures
            final(self).points@.len() == 0,
            final(self).triangles@.len() == 0,
            final(self).boundary_points@ == Set::<usize>::empty(),
            final(self).wf(),
    {
        self.points.clear();
        self.triangles.clear();
        self.boundary_points.clear();
        assert(self.boundary_points@ =~= leading(0));
    }

    /// Replaces everything by the polygon given as a flat list of
    /// coordinates, two a point; a coordinate left over at the end is
    /// dropped.
    pub fn add_polygon(&mut self, polygon_points: &[i64])
        ensures
            final(self).points@ == coordinate_pairs(polygon_points@, polygon_points.len() as int / 2),
            final(self).boundary_points@ == leading((polygon_points.len() / 2) as nat),
            final(self).boundary_count() == polygon_points.len() / 2,
            final(self).boundary_leads(),
            final(self).triangles@.len() == 0,
    {
        self.clear();
        let mut i: usize = 0;
        assert(self.boundary_points@ =~= leading(0));
        while i + 1 < polygon_points.len()
            invariant
                i % 2 == 0,
                i <= polygon_points.len(),
                self.points@ == coordinate_pairs(polygon_points@, i as int / 2),
                self.points.len() == i / 2,
                self.boundary_points@.finite(),
                self.boundary_points@ == leading(self.points.len() as nat),
                self.boundary_points@.len() == self.points.len(),
                self.triangles@.len() == 0,
            decreases polygon_points.len() - i,
        {
            let point = Point::new(polygon_points[i], polygon_points[i + 1]);
            self.points.push(point);
            let _ = self.boundary_points.insert(self.points.len() - 1);
            assert(self.boundary_points@ =~= leading(self.points.len() as nat));
            i += 2;
        }
    }

    /// Replaces everything by the polygon.
    pub fn add_polygon_from_points(&mut self, polygon_points: &[Point])
        ensures
            final(self).points@ == polygon_points@,
            final(self).boundary_points@ == leading(polygon_points.len() as nat),
            final(self).boundary_count() == polygon_points.len(),
            final(self).boundary_leads(),
            final(self).triangles@.len() == 0,
    {
        self.clear();
        let mut i: usize = 0;
        assert(self.boundary_points@ =~= leading(0));
        while i < polygon_points.len()
            invariant
                i <= polygon_points.len(),
                self.points@ == polygon_points@.take(i as int),
                self.boundary_points@.finite(),
                self.boundary_points@ == leading(i as nat),
                self.boundary_points@.len() == i,
                self.triangles@.len() == 0,
            decreases polygon_points.len() - i,
        {
            self.points.push(polygon_points[i]);
            assert(self.points@ =~= polygon_points@.take(i as int + 1));
            let _ = self.boundary_points.insert(self.points.len() - 1);
            assert(self.boundary_points@ =~= leading(i as nat + 1));
            i += 1;
        }
        assert(polygon_points@.take(polygon_points.len() as int) =~= polygon_points@);
    }

    /// Ray-casting test of `point` against `polygon`.
    fn is_point_in_polygon(&self, point: &Point, polygon: &[Point]) -> (r: bool)
        requires
            all_within(polygon@, EXTENT as int),
            point.within(EXTENT as int),
        ensures
            r == inside_polygon(polygon@, *point),
    {
        point_in_slice(polygon, point)
    }

    /// Generates the mesh of the polygon that the points describe: cuts its
    /// edges into pieces no longer than `density`, fills it with a lattice
    /// of that spacing, and triangulates.  Refuses, and changes nothing,
    /// when there are fewer than three points, when the density is zero, or
    /// when a point lies outside the input range.
    pub fn generate_mesh(&mut self, density: u64) -> (done: bool)
        ensures
            done == (old(self).points.len() >= 3 && density >= 1 && all_within(
                old(self).points@,
                COORD_LIMIT as int,
            )),
            !done ==> *final(self) == *old(self),
            done ==> {
                &&& final(self).points@ == meshed_points(old(self).points@, density as int)
                &&& final(self).boundary_count() == boundary_samples(
                    old(self).points@,
                    density as int,
                    old(self).points.len() as int,
                ).len()
                &&& bare_corners(final(self).triangles@) == meshed_triangles(
                    final(self).points@,
                    old(self).points@,
                )
                &&& final(self).wf()
            },
    {
        if self.points.len() < 3 || density < 1 || !points_within(&self.points, COORD_LIMIT) {
            return false;
        }
        let polygon = copy_points(&self.points);
        self.densify_boundary(density);
        self.add_interior_points(density, polygon.as_slice());
        self.triangulate(polygon.as_slice());
        true
    }

    /// Cuts every edge of the polygon into even pieces no longer than
    /// `density`; all points are boundary points afterwards.
    fn densify_boundary(&mut self, density: u64)
        requires
            density >= 1,
            all_within(old(self).points@, COORD_LIMIT as int),
        ensures
            final(self).points@ == boundary_samples(
                old(self).points@,
                density as int,
                old(self).points.len() as int,
            ),
            final(self).boundary_count() == final(self).points.len(),
            final(self).boundary_leads(),
            final(self).points.len() >= old(self).points.len(),
            final(self).triangles@ == old(self).triangles@,
            all_within(final(self).points@, COORD_LIMIT as int),
    {
        proof {
            crate::geometry::lemma_input_points_are_working_points(self.points@);
        }
        let new_points = subdivide_boundary(self.points.as_slice(), density);
        self.points = new_points;
        self.boundary_points.clear();
        let mut i: usize = 0;
        assert(self.boundary_points@ =~= leading(0));
        while i < self.points.len()
            invariant
                i <= self.points.len(),
                self.points@ == new_points@,
                self.triangles@ == old(self).triangles@,
                self.boundary_points@.finite(),
                self.boundary_points@ == leading(i as nat),
                self.boundary_points@.len() == i,
            decreases self.points.len() - i,
        {
            let _ = self.boundary_points.insert(i);
            assert(self.boundary_points@ =~= leading(i as nat + 1));
            i += 1;
        }
    }

    /// Appends the lattice points that lie inside the polygon.
    fn add_interior_points(&mut self, density: u64, polygon: &[Point])
        requires
            density >= 1,
            all_within(old(self).points@, COORD_LIMIT as int),
            all_within(polygon@, COORD_LIMIT as int),
        ensures
            final(self).points@ == old(self).points@ + interior_points(polygon@, density as int),
            final(self).boundary_points@ == old(self).boundary_points@,
            final(self).triangles@ == old(self).triangles@,
            all_within(final(self).points@, COORD_LIMIT as int),
    {
        let (min_x, max_x, min_y, max_y) = DelaunayTriangulator::calculate_bounds(polygon);
        proof {
            lemma_bounding_box(polygon@);
            crate::geometry::lemma_input_points_are_working_points(polygon@);
        }
        let step: i128 = density as i128;
        let ghost start = self.points@;
        let ghost whole = grid_columns(
            polygon@,
            min_x as int,
            min_y as int,
            max_x as int,
            max_y as int,
            step as int,
        );
        let mut x: i128 = min_x as i128;
        while x < max_x as i128
            invariant
                -COORD_LIMIT <= min_x <= max_x <= COORD_LIMIT,
                -COORD_LIMIT <= min_y <= max_y <= COORD_LIMIT,
                all_within(polygon@, EXTENT as int),
                1 <= step <= u64::MAX,
                min_x <= x,
                all_within(self.points@, COORD_LIMIT as int),
                self.boundary_points@ == old(self).boundary_points@,
                self.triangles@ == old(self).triangles@,
                self.points@ + grid_columns(
                    polygon@,
                    x as int,
                    min_y as int,
                    max_x as int,
                    max_y as int,
                    step as int,
                ) == start + whole,
            decreases
                if x < max_x {
                    max_x - x
                } else {
                    0
                },
        {
            let ghost right = grid_columns(
                polygon@,
                x + step,
                min_y as int,
                max_x as int,
                max_y as int,
                step as int,
            );
            let ghost column_start = self.points@;
            let ghost whole_column = grid_column(
                polygon@,
                x as int,
                min_y as int,
                step as int,
                max_y as int,
            );
            let mut y: i128 = min_y as i128;
            while y < max_y as i128
                invariant
                    -COORD_LIMIT <= min_x <= x < max_x <= COORD_LIMIT,
                    -COORD_LIMIT <= min_y <= max_y <= COORD_LIMIT,
                    all_within(polygon@, EXTENT as int),
                    1 <= step <= u64::MAX,
                    min_y <= y,
                    all_within(self.points@, COORD_LIMIT as int),
                    self.boundary_points@ == old(self).boundary_points@,
                    self.triangles@ == old(self).triangles@,
                    self.points@ + grid_column(
                        polygon@,
                        x as int,
                        y as int,
                        step as int,
                        max_y as int,
                    ) == column_start + whole_column,
                decreases
                    if y < max_y {
                        max_y - y
                    } else {
                        0
                    },
            {
                let point = Point::new(x as i64, y as i64);
                let ghost sofar = self.points@;
                let ghost rest = grid_column(
                    polygon@,
                    x as int,
                    y + step,
                    step as int,
                    max_y as int,
                );
                if self.is_point_in_polygon(&point, polygon) {
                    self.points.push(point);
                    assert(self.points@ + rest =~= sofar + (seq![point] + rest));
                }
                y = y + step;
            }
            assert(self.points@ =~= column_start + whole_column);
            assert(self.points@ + right =~= column_start + (whole_column + right));
            x = x + step;
        }
        assert(self.points@ =~= start + whole);
    }

    /// Triangulates the points with the outside triangulation and keeps the
    /// triangles whose centroid lies inside the polygon.  Fewer than three
    /// points leave the triangles as they are.
    pub fn triangulate(&mut self, polygon: &[Point])
        requires
            all_within(old(self).points@, COORD_LIMIT as int),
            all_within(polygon@, COORD_LIMIT as int),
            old(self).boundary_leads(),
            old(self).points.len() < 3 ==> old(self).wf(),
        ensures
            final(self).points@ == old(self).points@,
            final(self).boundary_points@ == old(self).boundary_points@,
            old(self).points.len() < 3 ==> final(self).triangles@ == old(self).triangles@,
            old(self).points.len() >= 3 ==> bare_corners(final(self).triangles@)
                == meshed_triangles(old(self).points@, polygon@),
            bare_corners(final(self).triangles@) == retriangulated(
                old(self).points@,
                polygon@,
                bare_corners(old(self).triangles@),
            ),
            final(self).wf(),
    {
        if self.points.len() < 3 {
            return ;
        }
        let raw = outside_triangulation(&self.points);
        self.keep_triangles_inside(raw.as_slice(), polygon);
    }

    /// Replaces the triangles by those of a flat index list, three indices
    /// to a triangle, whose centroid lies inside the polygon, in the order
    /// of the list.  Indices beyond the last full triple are ignored.
    pub fn keep_triangles_inside(&mut self, raw: &[usize], polygon: &[Point])
        requires
            all_within(old(self).points@, COORD_LIMIT as int),
            all_within(polygon@, COORD_LIMIT as int),
            old(self).boundary_leads(),
            forall|i: int| 0 <= i < raw.len() ==> (#[trigger] raw[i]) < old(self).points.len(),
        ensures
            final(self).points@ == old(self).points@,
            final(self).boundary_points@ == old(self).boundary_points@,
            bare_corners(final(self).triangles@) == center_filtered(
                raw@,
                old(self).points@,
                polygon@,
                raw.len() as int / 3,
            ),
            final(self).wf(),
    {
        proof {
            crate::geometry::lemma_input_points_are_working_points(self.points@);
            crate::geometry::lemma_input_points_are_working_points(polygon@);
        }
        self.triangles.clear();
        let count: usize = raw.len() / 3;
        let mut k: usize = 0;
        while k < count
            invariant
                k <= count,
                count == raw.len() / 3,
                forall|i: int| 0 <= i < raw.len() ==> (#[trigger] raw[i]) < self.points.len(),
                self.points@ == old(self).points@,
                self.boundary_points@ == old(self).boundary_points@,
                all_within(self.points@, EXTENT as int),
                all_within(self.points@, COORD_LIMIT as int),
                all_within(polygon@, EXTENT as int),
                bare_corners(self.triangles@) == center_filtered(
                    raw@,
                    self.points@,
                    polygon@,
                    k as int,
                ),
                forall|i: int|
                    0 <= i < self.triangles.len() ==> (#[trigger] self.triangles[i]).in_bounds(
                        self.points.len() as int,
                    ),
            decreases count - k,
        {
            let tri = Triangle::new(raw[3 * k], raw[3 * k + 1], raw[3 * k + 2]);
            assert(tri.corners() == raw_corners(raw@, k as int));
            let center = tri.center(self.points.as_slice());
            if self.is_point_in_polygon(&center, polygon) {
                let ghost before = bare_corners(self.triangles@);
                self.triangles.push(tri);
                assert(bare_corners(self.triangles@) =~= before.push(tri.corners()));
            }
            k += 1;
        }
    }

    /// A copy of the boundary polygon.
    fn boundary_polygon(&self) -> (polygon: Vec<Point>)
        requires
            self.boundary_leads(),
        ensures
            polygon@ == self.polygon(),
    {
        let mut polygon: Vec<Point> = Vec::new();
        let count = self.boundary_points.len();
        let mut i: usize = 0;
        while i < count
            invariant
                i <= count <= self.points.len(),
                count == self.boundary_count(),
                polygon@ == self.points@.take(i as int),
            decreases count - i,
        {
            polygon.push(self.points[i]);
            assert(polygon@ =~= self.points@.take(i as int + 1));
            i += 1;
        }
        polygon
    }

    /// Whether the state is one that the mesher can work on.
    pub fn is_usable(&self) -> (r: bool)
        ensures
            r == self.wf(),
    {
        let count = self.boundary_points.len();
        if count > self.points.len() || !points_within(&self.points, COORD_LIMIT) {
            return false;
        }
        let mut b: usize = 0;
        while b < count
            invariant
                b <= count,
                count == self.boundary_points@.len(),
                forall|k: usize| k < b ==> self.boundary_points@.contains(k),
            decreases count - b,
        {
            if !self.boundary_points.contains(&b) {
                assert(leading(count as nat).contains(b));
                return false;
            }
            b += 1;
        }
        proof {
            let walked = self.boundary_points.iter().remaining().unref();
            assert(walked.to_set() == self.boundary_points@);
            vstd::seq_lib::seq_to_set_is_finite(walked);
            lemma_leading_count(count as nat);
            assert(leading(count as nat).subset_of(self.boundary_points@));
            vstd::set_lib::lemma_subset_equality(leading(count as nat), self.boundary_points@);
        }
        let n = self.points.len();
        let mut i: usize = 0;
        while i < self.triangles.len()
            invariant
                i <= self.triangles.len(),
                n == self.points.len(),
                forall|k: int|
                    0 <= k < i ==> (#[trigger] self.triangles[k]).in_bounds(
                        self.points.len() as int,
                    ),
            decreases self.triangles.len() - i,
        {
            let t = &self.triangles[i];
            if t.indices[0] >= n || t.indices[1] >= n || t.indices[2] >= n {
                return false;
            }
            i += 1;
        }
        true
    }

    /// Adds the circumcentre of triangle `index` as a point and triangulates
    /// again, if the index names a triangle whose circumcentre lies on the
    /// grid and inside the boundary polygon; else changes nothing.  Tells
    /// whether the point was added.
    pub fn refine_at(&mut self, index: usize) -> (added: bool)
        requires
            old(self).wf(),
        ensures
            added == (index < old(self).triangles.len() && refinement_point(
                old(self).points@,
                old(self).polygon(),
                old(self).triangles[index as int].corners(),
            ) is Some),
            !added ==> *final(self) == *old(self),
            added ==> {
                &&& final(self).points@ == old(self).points@.push(
                    refinement_point(
                        old(self).points@,
                        old(self).polygon(),
                        old(self).triangles[index as int].corners(),
                    )->Some_0,
                )
                &&& bare_corners(final(self).triangles@) == retriangulated(
                    final(self).points@,
                    old(self).polygon(),
                    bare_corners(old(self).triangles@),
                )
            },
            final(self).boundary_points@ == old(self).boundary_points@,
            final(self).wf(),
    {
        if index >= self.triangles.len() {
            return false;
        }
        let triangle = self.triangles[index];
        proof {
            crate::geometry::lemma_input_points_are_working_points(self.points@);
            assert(triangle.in_bounds(self.points.len() as int));
        }
        let polygon = self.boundary_polygon();
        proof {
            assert forall|i: int| 0 <= i < polygon@.len() implies (#[trigger] polygon@[i]).within(
                COORD_LIMIT as int,
            ) by {
                assert(self.points@[i].within(COORD_LIMIT as int));
            }
            crate::geometry::lemma_input_points_are_working_points(polygon@);
        }
        match triangle.circumcenter(self.points.as_slice()) {
            Some(circumcenter) => {
                if self.is_point_in_polygon(&circumcenter, polygon.as_slice()) {
                    let ghost before = *self;
                    self.points.push(circumcenter);
                    proof {
                        assert forall|i: int| 0 <= i < self.points.len() implies (
                        #[trigger] self.points@[i]).within(COORD_LIMIT as int) by {
                            if i < before.points.len() {
                                assert(before.points@[i].within(COORD_LIMIT as int));
                            }
                        }
                        assert forall|i: int| 0 <= i < self.triangles.len() implies (
                        #[trigger] self.triangles[i]).in_bounds(self.points.len() as int) by {
                            assert(before.triangles[i].in_bounds(before.points.len() as int));
                        }
                    }
                    self.triangulate(polygon.as_slice());
                    true
                } else {
                    false
                }
            },
            None => false,
        }
    }

    /// The measure of every triangle, in order, as `measure` gives it for
    /// the three corner points.
    pub fn measure_triangles<M: Fn(&Point, &Point, &Point) -> i64>(&self, measure: &M) -> (qualities:
        Vec<i64>)
        requires
            self.wf(),
            forall|a: &Point, b: &Point, c: &Point| measure.requires((a, b, c)),
        ensures
            qualities.len() == self.triangles.len(),
            forall|i: int|
                0 <= i < qualities.len() ==> measure.ensures(
                    (
                        &self.points[self.triangles[i].indices[0] as int],
                        &self.points[self.triangles[i].indices[1] as int],
                        &self.points[self.triangles[i].indices[2] as int],
                    ),
                    #[trigger] qualities[i],
                ),
            gives_measures(self.points@, bare_corners(self.triangles@), qualities@, *measure),
    {
        let mut qualities: Vec<i64> = Vec::new();
        let mut i: usize = 0;
        while i < self.triangles.len()
            invariant
                i <= self.triangles.len(),
                self.wf(),
                forall|a: &Point, b: &Point, c: &Point| measure.requires((a, b, c)),
                qualities.len() == i,
                forall|k: int|
                    0 <= k < i ==> measure.ensures(
                        (
                            &self.points[self.triangles[k].indices[0] as int],
                            &self.points[self.triangles[k].indices[1] as int],
                            &self.points[self.triangles[k].indices[2] as int],
                        ),
                        #[trigger] qualities[k],
                    ),
            decreases self.triangles.len() - i,
        {
            let t = &self.triangles[i];
            assert(t.in_bounds(self.points.len() as int));
            let q = measure(
                &self.points[t.indices[0]],
                &self.points[t.indices[1]],
                &self.points[t.indices[2]],
            );
            qualities.push(q);
            i += 1;
        }
        qualities
    }

    /// Refines the mesh for at most `max_iterations` rounds.  A round takes
    /// the measure of every triangle, picks the worst one for the metric and
    /// the threshold, and adds its circumcentre; refinement ends when no
    /// triangle is bad or when the circumcentre cannot be added.  Returns
    /// the number of points added.
    ///
    /// The outcome is that of the rounds taken one after the other, each
    /// with the measures that `measure` gave for it.  Whatever `measure`
    /// answers, the points that were there stay, in order, and every added
    /// point is the circumcentre of a triangle and lies inside the boundary
    /// polygon.
    pub fn refine_mesh<M: Fn(&Point, &Point, &Point) -> i64>(
        &mut self,
        metric: &str,
        threshold: i64,
        max_iterations: usize,
        measure: &M,
    ) -> (iterations: usize)
        requires
            old(self).wf(),
            forall|a: &Point, b: &Point, c: &Point| measure.requires((a, b, c)),
        ensures
            iterations <= max_iterations,
            final(self).points.len() == old(self).points.len() + iterations,
            final(self).points@.take(old(self).points.len() as int) == old(self).points@,
            final(self).boundary_points@ == old(self).boundary_points@,
            forall|i: int|
                old(self).points.len() <= i < final(self).points.len() ==> inside_polygon(
                    old(self).polygon(),
                    #[trigger] final(self).points[i],
                ),
            iterations == 0 ==> *final(self) == *old(self),
            iterations > 0 && final(self).points.len() >= 3 ==> bare_corners(final(self).triangles@)
                == meshed_triangles(final(self).points@, old(self).polygon()),
            metric_named(metric@) is None ==> iterations == 0,
            refines_to(
                *measure,
                metric_named(metric@),
                threshold,
                old(self).polygon(),
                max_iterations as nat,
                old(self).points@,
                bare_corners(old(self).triangles@),
                final(self).points@,
                bare_corners(final(self).triangles@),
                iterations as nat,
            ),
            final(self).wf(),
    {
        let mut iterations: usize = 0;
        let mut done = false;
        assert(self.points@.take(self.points.len() as int) =~= self.points@);
        let ghost known = metric_named(metric@);
        let ghost polygon = self.polygon();
        let ghost start_points = self.points@;
        let ghost start_tris = bare_corners(self.triangles@);
        while iterations < max_iterations && !done
            invariant
                iterations <= max_iterations,
                forall|a: &Point, b: &Point, c: &Point| measure.requires((a, b, c)),
                self.wf(),
                self.points.len() == old(self).points.len() + iterations,
                self.points@.take(old(self).points.len() as int) == old(self).points@,
                self.boundary_points@ == old(self).boundary_points@,
                self.polygon() == old(self).polygon(),
                forall|i: int|
                    old(self).points.len() <= i < self.points.len() ==> inside_polygon(
                        old(self).polygon(),
                        #[trigger] self.points[i],
                    ),
                iterations == 0 ==> *self == *old(self),
                iterations > 0 && self.points.len() >= 3 ==> bare_corners(self.triangles@)
                    == meshed_triangles(self.points@, old(self).polygon()),
                metric_named(metric@) is None ==> iterations == 0,
                known == metric_named(metric@),
                polygon == old(self).polygon(),
                start_points == old(self).points@,
                start_tris == bare_corners(old(self).triangles@),
                done ==> refines_to(
                    *measure,
                    known,
                    threshold,
                    polygon,
                    max_iterations as nat,
                    start_points,
                    start_tris,
                    self.points@,
                    bare_corners(self.triangles@),
                    iterations as nat,
                ),
                !done ==> forall|last_points: Seq<Point>, last_tris: Seq<Corners>, count: nat|
                    #[trigger] refines_to(
                        *measure,
                        known,
                        threshold,
                        polygon,
                        (max_iterations - iterations) as nat,
                        self.points@,
                        bare_corners(self.triangles@),
                        last_points,
                        last_tris,
                        count,
                    ) ==> refines_to(
                        *measure,
                        known,
                        threshold,
                        polygon,
                        max_iterations as nat,
                        start_points,
                        start_tris,
                        last_points,
                        last_tris,
                        (count + iterations) as nat,
                    ),
            decreases max_iterations - iterations + if done { 0int } else { 1int },
        {
            let ghost before = *self;
            let ghost points = self.points@;
            let ghost tris = bare_corners(self.triangles@);
            let ghost budget = (max_iterations - iterations) as nat;
            let qualities = self.measure_triangles(measure);
            let worst = find_worst_triangle(metric, threshold, qualities.as_slice());
            assert(is_round(*measure, known, threshold, points, tris, qualities@, worst));
            let added = match worst {
                Some(index) => {
                    assert(index < tris.len() ==> tris[index as int]
                        == before.triangles[index as int].corners());
                    self.refine_at(index)
                },
                None => false,
            };
            if added {
                iterations += 1;
                proof {
                    assert(self.points@.take(old(self).points.len() as int) =~= before.points@.take(
                        old(self).points.len() as int,
                    ));
                    assert(self.polygon() =~= before.polygon());
                    let next = (self.points@, bare_corners(self.triangles@));
                    assert(refined_at(points, tris, polygon, worst) == Some(next));
                    assert forall|last_points: Seq<Point>, last_tris: Seq<Corners>, count: nat|
                        #[trigger] refines_to(
                            *measure,
                            known,
                            threshold,
                            polygon,
                            (max_iterations - iterations) as nat,
                            self.points@,
                            bare_corners(self.triangles@),
                            last_points,
                            last_tris,
                            count,
                        ) implies refines_to(
                        *measure,
                        known,
                        threshold,
                        polygon,
                        max_iterations as nat,
                        start_points,
                        start_tris,
                        last_points,
                        last_tris,
                        (count + iterations) as nat,
                    ) by {
                        assert((budget - 1) as nat == (max_iterations - iterations) as nat);
                        assert(((count + 1) as nat - 1) as nat == count);
                        assert(refines_to(
                            *measure,
                            known,
                            threshold,
                            polygon,
                            budget,
                            points,
                            tris,
                            last_points,
                            last_tris,
                            (count + 1) as nat,
                        ));
                    }
                }
            } else {
                proof {
                    assert(refined_at(points, tris, polygon, worst) is None);
                    assert(refines_to(
                        *measure,
                        known,
                        threshold,
                        polygon,
                        budget,
                        points,
                        tris,
                        points,
                        tris,
                        0,
                    ));
                }
                done = true;
            }
        }
        proof {
            if !done {
                assert(refines_to(
                    *measure,
                    known,
                    threshold,
                    polygon,
                    (max_iterations - iterations) as nat,
                    self.points@,
                    bare_corners(self.triangles@),
                    self.points@,
                    bare_corners(self.triangles@),
                    0,
                ));
            }
        }
        iterations
    }

    /// The mean of the measures of the triangles for a metric, rounded
    /// toward zero: zero for a mesh without triangles and for a metric that
    /// is not known.
    pub fn get_average_quality(&self, metric: &str, qualities: &[i64]) -> (mean: i64)
        ensures
            mean == average_quality(
                metric_named(metric@),
                self.triangles.len() as int,
                qualities@,
            ),
    {
        let known = Metric::from_name(metric);
        if self.triangles.len() == 0 || qualities.len() == 0 || known.is_none() {
            return 0;
        }
        let mut sum: i128 = 0;
        let mut i: usize = 0;
        while i < qualities.len()
            invariant
                i <= qualities.len(),
                sum == quality_sum(qualities@, i as int),
                -(i * 0x8000_0000_0000_0000) <= sum <= i * 0x7fff_ffff_ffff_ffff,
            decreases qualities.len() - i,
        {
            sum = sum + qualities[i] as i128;
            i += 1;
        }
        let count: i128 = qualities.len() as i128;
        let mean = divide_toward_zero(sum, count);
        proof {
            lemma_mean_within(sum as int, count as int, 0x8000_0000_0000_0000);
            if sum >= 0 {
                assert(sum / count <= 0x7fff_ffff_ffff_ffff) by (nonlinear_arith)
                    requires
                        0 <= sum <= count * 0x7fff_ffff_ffff_ffff,
                        count > 0,
                ;
            }
        }
        mean as i64
    }

    /// Smooths the mesh for at most `iterations` passes.  A pass moves every
    /// point that is no boundary point to the mean of its neighbours in the
    /// triangles and triangulates again; the first pass that moves nothing
    /// is the last.  Does nothing on a state it cannot work on.
    pub fn smooth_mesh(&mut self, iterations: usize) -> (r: bool)
        ensures
            r,
            !old(self).wf() ==> *final(self) == *old(self),
            old(self).wf() ==> {
                &&& (final(self).points@, bare_corners(final(self).triangles@)) == smoothed(
                    old(self).points@,
                    bare_corners(old(self).triangles@),
                    old(self).boundary_count() as int,
                    iterations as nat,
                )
                &&& final(self).boundary_points@ == old(self).boundary_points@
                &&& final(self).polygon() == old(self).polygon()
                &&& final(self).wf()
            },
    {
        if !self.is_usable() {
            return true;
        }
        let polygon = self.boundary_polygon();
        let ghost goal = smoothed(
            self.points@,
            bare_corners(self.triangles@),
            self.boundary_count() as int,
            iterations as nat,
        );
        let mut pass: usize = 0;
        let mut done = false;
        while pass < iterations && !done
            invariant
                pass <= iterations,
                self.wf(),
                self.boundary_points@ == old(self).boundary_points@,
                polygon@ == self.polygon(),
                polygon@ == old(self).polygon(),
                goal == smoothed(
                    self.points@,
                    bare_corners(self.triangles@),
                    self.boundary_count() as int,
                    if done {
                        0nat
                    } else {
                        (iterations - pass) as nat
                    },
                ),
            decreases iterations - pass + if done { 0int } else { 1int },
        {
            let moved = self.smooth_once();
            proof {
                assert forall|i: int| 0 <= i < polygon@.len() implies (#[trigger] polygon@[i]).within(
                    COORD_LIMIT as int,
                ) by {
                    assert(self.points@[i].within(COORD_LIMIT as int));
                }
            }
            let ghost stale = *self;
            self.triangulate(polygon.as_slice());
            proof {
                assert(self.polygon() =~= polygon@);
            }
            if moved {
                pass += 1;
            } else {
                done = true;
            }
        }
        true
    }

    /// One pass of smoothing without the triangulation that follows it:
    /// moves every point that is no boundary point and has neighbours to
    /// their mean.  Tells whether a point was moved.
    pub fn smooth_once(&mut self) -> (moved: bool)
        requires
            old(self).wf(),
        ensures
            final(self).points@ == smooth_pass(
                old(self).points@,
                bare_corners(old(self).triangles@),
                old(self).boundary_count() as int,
            ),
            moved == smoothing_moves_any(
                old(self).points@,
                bare_corners(old(self).triangles@),
                old(self).boundary_count() as int,
            ),
            final(self).triangles@ == old(self).triangles@,
            final(self).boundary_points@ == old(self).boundary_points@,
            final(self).polygon() == old(self).polygon(),
            final(self).wf(),
    {
        let n = self.points.len();
        let ghost points = self.points@;
        let ghost tris = bare_corners(self.triangles@);
        let mut neighbors: HashMap<usize, Vec<usize>> = HashMap::new();
        let mut t: usize = 0;
        while t < self.triangles.len()
            invariant
                t <= self.triangles.len(),
                *self == *old(self),
                self.wf(),
                n == self.points.len(),
                points == self.points@,
                tris == bare_corners(self.triangles@),
                forall|v: usize| #[trigger] held(neighbors@, v) == neighbors_of(tris, v as int, t as int),
            decreases self.triangles.len() - t,
        {
            let triangle = self.triangles[t];
            assert(tris[t as int] == triangle.corners());
            let ghost c = triangle.corners();
            let mut k: usize = 0;
            assert forall|v: usize| #[trigger]
                held(neighbors@, v) == neighbors_of(tris, v as int, t as int) + corner_neighbors(
                    c,
                    v as int,
                    0,
                ) by {
                assert(neighbors_of(tris, v as int, t as int) + corner_neighbors(c, v as int, 0)
                    =~= neighbors_of(tris, v as int, t as int));
            }
            while k < 3
                invariant
                    k <= 3,
                    t < self.triangles.len(),
                    *self == *old(self),
                    self.wf(),
                    n == self.points.len(),
                    points == self.points@,
                    tris == bare_corners(self.triangles@),
                    c == triangle.corners(),
                    c == tris[t as int],
                    forall|v: usize| #[trigger]
                        held(neighbors@, v) == neighbors_of(tris, v as int, t as int)
                            + corner_neighbors(c, v as int, k as int),
                decreases 3 - k,
            {
                let curr = triangle.indices[k];
                let next1 = triangle.indices[(k + 1) % 3];
                let next2 = triangle.indices[(k + 2) % 3];
                assert(curr == corner(c, k as int));
                assert(next1 == corner(c, k as int + 1));
                assert(next2 == corner(c, k as int + 2));
                let ghost before = neighbors@;
                let list = neighbors.entry(curr).or_insert(Vec::new());
                list.push(next1);
                list.push(next2);
                proof {
                    assert forall|v: usize| #[trigger]
                        held(neighbors@, v) == neighbors_of(tris, v as int, t as int)
                            + corner_neighbors(c, v as int, k as int + 1) by {
                        let so_far = neighbors_of(tris, v as int, t as int) + corner_neighbors(
                            c,
                            v as int,
                            k as int,
                        );
                        assert(held(before, v) == so_far);
                        if v == curr {
                            assert(held(neighbors@, v) =~= so_far.push(next1).push(next2));
                            assert(neighbors_of(tris, v as int, t as int) + corner_neighbors(
                                c,
                                v as int,
                                k as int + 1,
                            ) =~= so_far.push(next1).push(next2));
                        } else {
                            assert(held(neighbors@, v) == held(before, v));
                        }
                    }
                }
                k += 1;
            }
            t += 1;
        }
        let mut moved_count: usize = 0;
        let ghost bc = self.boundary_count() as int;
        let ghost before = *self;
        let mut new_points: Vec<Point> = Vec::new();
        let mut i: usize = 0;
        while i < n
            invariant
                i <= n,
                *self == before,
                before == *old(self),
                self.wf(),
                n == self.points.len(),
                points == self.points@,
                tris == bare_corners(self.triangles@),
                bc == self.boundary_count(),
                forall|v: usize| #[trigger]
                    held(neighbors@, v) == neighbors_of(tris, v as int, tris.len() as int),
                tris.len() == self.triangles.len(),
                new_points.len() == i,
                forall|j: int|
                    0 <= j < i ==> (#[trigger] new_points[j]) == smoothed_point(points, tris, bc, j),
                all_within(new_points@, COORD_LIMIT as int),
                moved_count <= i,
                (moved_count > 0) == exists|j: int|
                    0 <= j < i && #[trigger] smoothing_moves(points, tris, bc, j),
            decreases n - i,
        {
            let ghost sofar = new_points@;
            let ghost known = held(neighbors@, i);
            assert(known == neighbors_of(tris, i as int, tris.len() as int));
            assert(self.points@[i as int].within(COORD_LIMIT as int));
            let mut placed = self.points[i];
            if !self.boundary_points.contains(&i) {
                if let Some(neighbor_indices) = neighbors.get(&i) {
                    assert(neighbor_indices@ == known);
                    let (sum_x, sum_y) = self.sum_coordinates(neighbor_indices);
                    let count = neighbor_indices.len();
                    if count > 0 {
                        let divisor: i128 = count as i128;
                        let avg_x: i128 = divide_toward_zero(sum_x, divisor);
                        let avg_y: i128 = divide_toward_zero(sum_y, divisor);
                        proof {
                            lemma_mean_within(sum_x as int, divisor as int, 1_000_000);
                            lemma_mean_within(sum_y as int, divisor as int, 1_000_000);
                        }
                        placed = Point::new(avg_x as i64, avg_y as i64);
                        moved_count += 1;
                        assert(smoothing_moves(points, tris, bc, i as int));
                    } else {
                        assert(!smoothing_moves(points, tris, bc, i as int));
                    }
                } else {
                    assert(known.len() == 0);
                    assert(!smoothing_moves(points, tris, bc, i as int));
                }
            } else {
                assert(!smoothing_moves(points, tris, bc, i as int));
            }
            assert(placed == smoothed_point(points, tris, bc, i as int));
            new_points.push(placed);
            assert forall|j: int| 0 <= j < new_points.len() implies (
            #[trigger] new_points@[j]).within(COORD_LIMIT as int) by {
                if j < i {
                    assert(sofar[j].within(COORD_LIMIT as int));
                }
            }
            i += 1;
        }
        assert(new_points@ =~= smooth_pass(points, tris, bc));
        self.points = new_points;
        assert(self.polygon() =~= before.polygon()) by {
            assert forall|j: int| 0 <= j < bc implies self.points@[j] == points[j] by {
                assert(!smoothing_moves(points, tris, bc, j));
            }
        }
        moved_count > 0
    }

    /// The sums of the coordinates of the points that a list names; an
    /// entry that names no point adds nothing.
    fn sum_coordinates(&self, list: &Vec<usize>) -> (sums: (i128, i128))
        requires
            all_within(self.points@, COORD_LIMIT as int),
        ensures
            (sums.0 as int, sums.1 as int) == coordinate_sums(
                self.points@,
                list@,
                list.len() as int,
            ),
            -(list.len() * 1_000_000) <= sums.0 <= list.len() * 1_000_000,
            -(list.len() * 1_000_000) <= sums.1 <= list.len() * 1_000_000,
    {
        let mut sum_x: i128 = 0;
        let mut sum_y: i128 = 0;
        let mut j: usize = 0;
        while j < list.len()
            invariant
                j <= list.len(),
                all_within(self.points@, COORD_LIMIT as int),
                (sum_x as int, sum_y as int) == coordinate_sums(self.points@, list@, j as int),
                -(j * 1_000_000) <= sum_x <= j * 1_000_000,
                -(j * 1_000_000) <= sum_y <= j * 1_000_000,
            decreases list.len() - j,
        {
            let neighbor_idx = list[j];
            if neighbor_idx < self.points.len() {
                assert(self.points@[neighbor_idx as int].within(COORD_LIMIT as int));
                sum_x = sum_x + self.points[neighbor_idx].x as i128;
                sum_y = sum_y + self.points[neighbor_idx].y as i128;
            }
            j += 1;
        }
        (sum_x, sum_y)
    }
}

/// The point that refining a triangle adds: its circumcentre on the grid, if
/// there is one and it lies inside the polygon.
pub open spec fn refinement_point(points: Seq<Point>, polygon: Seq<Point>, c: Corners) -> Option<
    Point,
> {
    match grid_circumcenter(points[c.0 as int], points[c.1 as int], points[c.2 as int]) {
        Some(p) => if inside_polygon(polygon, p) {
            Some(p)
        } else {
            None
        },
        None => None,
    }
}

/// A sum of `count` values of size at most `limit` has a mean of size at
/// most `limit`.
pub proof fn lemma_mean_within(sum: int, count: int, limit: int)
    requires
        count > 0,
        limit >= 0,
        -(count * limit) <= sum <= count * limit,
    ensures
        -limit <= signed_trunc_div(sum, count) <= limit,
{
    let size = vstd::math::abs(sum) as int;
    assert(size / count <= limit) by (nonlinear_arith)
        requires
            0 <= size <= count * limit,
            count > 0,
    ;
    assert(size / count >= 0) by (nonlinear_arith)
        requires
            0 <= size,
            count > 0,
    ;
}

/// The coordinates of point `index`; nothing for an index that names no
/// point.
pub open spec fn drawn_point(points: Seq<Point>, index: int) -> Seq<i64> {
    if 0 <= index < points.len() {
        seq![points[index].x, points[index].y]
    } else {
        Seq::empty()
    }
}

/// The coordinates of the corners of the first `n` triangles, in order.
pub open spec fn drawn_triangles(points: Seq<Point>, triangles: Seq<Triangle>, n: int) -> Seq<i64>
    decreases n,
{
    if n <= 0 {
        Seq::empty()
    } else {
        drawn_triangles(points, triangles, n - 1) + drawn_point(
            points,
            triangles[n - 1].indices[0] as int,
        ) + drawn_point(points, triangles[n - 1].indices[1] as int) + drawn_point(
            points,
            triangles[n - 1].indices[2] as int,
        )
    }
}

/// The coordinates of the first `n` points, in order.
pub open spec fn drawn_points(points: Seq<Point>, n: int) -> Seq<i64>
    decreases n,
{
    if n <= 0 {
        Seq::empty()
    } else {
        drawn_points(points, n - 1) + drawn_point(points, n - 1)
    }
}

/// The coordinates of those of the first `n` points whose index is in
/// `marked`, in order.
pub open spec fn drawn_marked(points: Seq<Point>, marked: Set<usize>, n: int) -> Seq<i64>
    decreases n,
{
    if n <= 0 {
        Seq::empty()
    } else if marked.contains((n - 1) as usize) {
        drawn_marked(points, marked, n - 1) + drawn_point(points, n - 1)
    } else {
        drawn_marked(points, marked, n - 1)
    }
}

/// The mesher under the name that the drawing front end knows it by.
pub type Mesher = MeshCore;

impl MeshCore {
    /// The number of triangles.
    pub fn get_triangle_count(&self) -> (n: usize)
        ensures
            n == self.triangles.len(),
    {
        self.triangles.len()
    }

    /// The number of points.
    pub fn get_point_count(&self) -> (n: usize)
        ensures
            n == self.points.len(),
    {
        self.points.len()
    }

    /// Appends the coordinates of point `index`, if there is such a point.
    fn draw_point(&self, index: usize, result: &mut Vec<i64>)
        ensures
            final(result)@ == old(result)@ + drawn_point(self.points@, index as int),
    {
        if index < self.points.len() {
            result.push(self.points[index].x);
            result.push(self.points[index].y);
            assert(result@ =~= old(result)@ + drawn_point(self.points@, index as int));
        } else {
            assert(result@ =~= old(result)@ + drawn_point(self.points@, index as int));
        }
    }

    /// The corners of all triangles as a flat list of coordinates: six
    /// numbers a triangle, less for a triangle that names a missing point.
    pub fn get_triangles_for_drawing(&self) -> (coordinates: Vec<i64>)
        ensures
            coordinates@ == drawn_triangles(
                self.points@,
                self.triangles@,
                self.triangles.len() as int,
            ),
    {
        let mut result: Vec<i64> = Vec::new();
        let mut t: usize = 0;
        while t < self.triangles.len()
            invariant
                t <= self.triangles.len(),
                result@ == drawn_triangles(self.points@, self.triangles@, t as int),
            decreases self.triangles.len() - t,
        {
            let triangle = &self.triangles[t];
            self.draw_point(triangle.indices[0], &mut result);
            self.draw_point(triangle.indices[1], &mut result);
            self.draw_point(triangle.indices[2], &mut result);
            t += 1;
        }
        result
    }

    /// The boundary points as a flat list of coordinates, two a point, in
    /// the order of the points.
    pub fn get_boundary_points_for_drawing(&self) -> (coordinates: Vec<i64>)
        ensures
            coordinates@ == drawn_marked(
                self.points@,
                self.boundary_points@,
                self.points.len() as int,
            ),
    {
        let mut result: Vec<i64> = Vec::new();
        let mut idx: usize = 0;
        while idx < self.points.len()
            invariant
                idx <= self.points.len(),
                result@ == drawn_marked(self.points@, self.boundary_points@, idx as int),
            decreases self.points.len() - idx,
        {
            if self.boundary_points.contains(&idx) {
                self.draw_point(idx, &mut result);
            }
            idx += 1;
        }
        result
    }
}

} // verus!
