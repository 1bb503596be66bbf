//! Incremental Delaunay triangulation after Bowyer and Watson.

use vstd::prelude::*;
use crate::elements::{
    corner, corners_circle, corners_in_bounds, corners_jacobian, has_side,
    lemma_circum_bounds, lemma_corners_on_circumcircle, lemma_excess_factors, side, Corners,
    Edge, Triangle,
};
use crate::arith::{isqrt, isqrt_spec, lemma_mul_bound};
use crate::sizing::{coarse_edge_for, coarse_edge_length};
use crate::geometry::{
    all_within, boundary_samples, centroid, centroid_spec, cross, inside_polygon,
    lemma_cross_swap, point_in_polygon, point_in_slice, subdivide_boundary, trunc_div, Point,
    COORD_LIMIT, EXTENT,
};
use crate::mesh::{Mesh, MeshError};

verus! {

/// The corner triples of a list of triangles.
pub open spec fn corners_of(triangles: Seq<Triangle>) -> Seq<Corners> {
    triangles.map_values(|t: Triangle| t.corners())
}

/// A triangle is bad for `p` when its circumcircle strictly contains `p`.
pub open spec fn is_bad(points: Seq<Point>, c: Corners, p: Point) -> bool {
    corners_circle(c, points).strictly_contains(p)
}

/// Whether a bad triangle other than triangle `i` has the edge `e`.
pub open spec fn shared_with_other_bad(
    points: Seq<Point>,
    tris: Seq<Corners>,
    p: Point,
    i: int,
    e: (usize, usize),
) -> bool {
    exists|j: int|
        0 <= j < tris.len() && j != i && is_bad(points, #[trigger] tris[j], p) && has_side(
            tris[j],
            e,
        )
}

/// Side `k` of triangle `i` bounds the cavity of `p`: the triangle is bad and
/// no other bad triangle shares the side.
pub open spec fn on_cavity_boundary(
    points: Seq<Point>,
    tris: Seq<Corners>,
    p: Point,
    i: int,
    k: int,
) -> bool {
    is_bad(points, tris[i], p) && !shared_with_other_bad(points, tris, p, i, side(tris[i], k))
}

/// The cavity boundary among the first `n` sides, where side `k` of triangle
/// `i` is side number `3 i + k`: the sides in that order.
pub open spec fn cavity_edges(points: Seq<Point>, tris: Seq<Corners>, p: Point, n: int) -> Seq<
    (usize, usize),
>
    decreases n,
{
    if n <= 0 {
        Seq::empty()
    } else {
        let before = cavity_edges(points, tris, p, n - 1);
        if on_cavity_boundary(points, tris, p, (n - 1) / 3, (n - 1) % 3) {
            before.push(side(tris[(n - 1) / 3], (n - 1) % 3))
        } else {
            before
        }
    }
}

/// The triangle that joins the edge `e` to point `apex`, its first two
/// corners swapped if that is needed to keep it from turning clockwise.
pub open spec fn oriented(points: Seq<Point>, e: (usize, usize), apex: usize) -> Corners {
    if cross(points[e.0 as int], points[e.1 as int], points[apex as int]) > 0 {
        (e.0, e.1, apex)
    } else {
        (e.1, e.0, apex)
    }
}

/// The triangles among the first `n` that are not bad for `p`, in order.
pub open spec fn survivors(points: Seq<Point>, tris: Seq<Corners>, p: Point, n: int) -> Seq<
    Corners,
>
    decreases n,
{
    if n <= 0 {
        Seq::empty()
    } else {
        let before = survivors(points, tris, p, n - 1);
        if is_bad(points, tris[n - 1], p) {
            before
        } else {
            before.push(tris[n - 1])
        }
    }
}

/// The triangles that fill the cavity of point `apex`: one on each boundary
/// edge, in the order of the edges.
pub open spec fn cavity_fill(points: Seq<Point>, tris: Seq<Corners>, apex: usize) -> Seq<Corners> {
    cavity_edges(points, tris, points[apex as int], 3 * (tris.len() as int)).map_values(
        |e: (usize, usize)| oriented(points, e, apex),
    )
}

/// One step of the algorithm: the triangles after point `apex` went in.  The
/// bad triangles leave, the others stay in order, and the cavity fill follows
/// them.
pub open spec fn insertion(points: Seq<Point>, tris: Seq<Corners>, apex: usize) -> Seq<Corners> {
    survivors(points, tris, points[apex as int], tris.len() as int) + cavity_fill(
        points,
        tris,
        apex,
    )
}

/// The triangles after the first `n` points went in, in the order of the
/// point list.
pub open spec fn insertions(points: Seq<Point>, tris: Seq<Corners>, n: nat) -> Seq<Corners>
    decreases n,
{
    if n == 0 {
        tris
    } else {
        insertion(points, insertions(points, tris, (n - 1) as nat), (n - 1) as usize)
    }
}

/// A point that no circumcircle strictly contains changes nothing: its
/// insertion leaves every triangle in place and adds none.
pub proof fn lemma_insertion_without_bad_triangles(
    points: Seq<Point>,
    tris: Seq<Corners>,
    apex: usize,
)
    requires
        forall|i: int| 0 <= i < tris.len() ==> !is_bad(points, #[trigger] tris[i], points[apex as int]),
    ensures
        insertion(points, tris, apex) == tris,
{
    let p = points[apex as int];
    lemma_survivors_without_bad(points, tris, p, tris.len() as int);
    lemma_no_cavity_without_bad(points, tris, p, 3 * (tris.len() as int));
    assert(tris.take(tris.len() as int) =~= tris);
    assert(insertion(points, tris, apex) =~= tris);
}

/// Without a bad triangle among the first `n`, all of them survive.
pub proof fn lemma_survivors_without_bad(points: Seq<Point>, tris: Seq<Corners>, p: Point, n: int)
    requires
        0 <= n <= tris.len(),
        forall|i: int| 0 <= i < n ==> !is_bad(points, #[trigger] tris[i], p),
    ensures
        survivors(points, tris, p, n) == tris.take(n),
    decreases n,
{
    if n > 0 {
        lemma_survivors_without_bad(points, tris, p, n - 1);
        assert(tris.take(n) =~= tris.take(n - 1).push(tris[n - 1]));
    } else {
        assert(tris.take(0) =~= Seq::<Corners>::empty());
    }
}

/// Without a bad triangle the cavity has no boundary.
pub proof fn lemma_no_cavity_without_bad(points: Seq<Point>, tris: Seq<Corners>, p: Point, n: int)
    requires
        0 <= n <= 3 * tris.len(),
        forall|i: int| 0 <= i < tris.len() ==> !is_bad(points, #[trigger] tris[i], p),
    ensures
        cavity_edges(points, tris, p, n) == Seq::<(usize, usize)>::empty(),
    decreases n,
{
    if n > 0 {
        lemma_no_cavity_without_bad(points, tris, p, n - 1);
        assert(0 <= (n - 1) / 3 < tris.len());
        assert(!is_bad(points, tris[(n - 1) / 3], p));
    }
}

/// Every corner of the triangle is one of the three indices `s` or an index
/// below `k`.
pub open spec fn corners_among(c: Corners, s: Corners, k: int) -> bool {
    let known = |v: usize| v < k || v == s.0 || v == s.1 || v == s.2;
    known(c.0) && known(c.1) && known(c.2)
}

/// The triangulation grows point by point: after the first `k` points went
/// into a triangulation that started from triangles on the indices `s`,
/// every triangle joins points among these `k` and `s` only.
pub proof fn lemma_insertions_join_inserted_points(
    points: Seq<Point>,
    tris: Seq<Corners>,
    s: Corners,
    k: nat,
)
    requires
        forall|i: int| 0 <= i < tris.len() ==> corners_among(#[trigger] tris[i], s, 0),
    ensures
        forall|i: int|
            0 <= i < insertions(points, tris, k).len() ==> corners_among(
                #[trigger] insertions(points, tris, k)[i],
                s,
                k as int,
            ),
    decreases k,
{
    if k > 0 {
        lemma_insertions_join_inserted_points(points, tris, s, (k - 1) as nat);
        let before = insertions(points, tris, (k - 1) as nat);
        let apex = (k - 1) as usize;
        let p = points[apex as int];
        lemma_survivors_are_old(points, before, p, before.len() as int);
        lemma_cavity_edges_are_old(points, before, p, 3 * (before.len() as int));
        let edges = cavity_edges(points, before, p, 3 * (before.len() as int));
        let kept = survivors(points, before, p, before.len() as int);
        let after = insertions(points, tris, k);
        assert(after == kept + cavity_fill(points, before, apex));
        assert forall|i: int| 0 <= i < after.len() implies corners_among(
            #[trigger] after[i],
            s,
            k as int,
        ) by {
            if i < kept.len() {
                let j = choose|j: int| 0 <= j < before.len() && before[j] == kept[i];
                assert(corners_among(before[j], s, k - 1));
            } else {
                let e = edges[i - kept.len()];
                assert(is_some_side(before, e));
                let (j, m) = choose|j: int, m: int|
                    #![trigger side(before[j], m)]
                    0 <= j < before.len() && 0 <= m < 3 && e == side(before[j], m);
                assert(corners_among(before[j], s, k - 1));
                assert(after[i] == oriented(points, e, apex));
            }
        }
    }
}

/// Every survivor is one of the triangles that were there.
pub proof fn lemma_survivors_are_old(points: Seq<Point>, tris: Seq<Corners>, p: Point, n: int)
    requires
        0 <= n <= tris.len(),
    ensures
        forall|i: int|
            0 <= i < survivors(points, tris, p, n).len() ==> exists|j: int|
                0 <= j < tris.len() && tris[j] == #[trigger] survivors(points, tris, p, n)[i],
    decreases n,
{
    if n > 0 {
        lemma_survivors_are_old(points, tris, p, n - 1);
        let before = survivors(points, tris, p, n - 1);
        let now = survivors(points, tris, p, n);
        assert forall|i: int| 0 <= i < now.len() implies exists|j: int|
            0 <= j < tris.len() && tris[j] == #[trigger] now[i] by {
            if i < before.len() {
                let j = choose|j: int| 0 <= j < tris.len() && tris[j] == before[i];
                assert(tris[j] == now[i]);
            } else {
                assert(tris[n - 1] == now[i]);
            }
        }
    }
}

/// The edge `e` is a side of one of the triangles.
pub open spec fn is_some_side(tris: Seq<Corners>, e: (usize, usize)) -> bool {
    exists|j: int, m: int|
        #![trigger side(tris[j], m)]
        0 <= j < tris.len() && 0 <= m < 3 && e == side(tris[j], m)
}

/// Every edge of the cavity boundary is a side of one of the triangles.
pub proof fn lemma_cavity_edges_are_old(points: Seq<Point>, tris: Seq<Corners>, p: Point, n: int)
    requires
        0 <= n <= 3 * tris.len(),
    ensures
        forall|i: int|
            0 <= i < cavity_edges(points, tris, p, n).len() ==> is_some_side(
                tris,
                #[trigger] cavity_edges(points, tris, p, n)[i],
            ),
    decreases n,
{
    if n > 0 {
        lemma_cavity_edges_are_old(points, tris, p, n - 1);
        let before = cavity_edges(points, tris, p, n - 1);
        let now = cavity_edges(points, tris, p, n);
        assert forall|i: int| 0 <= i < now.len() implies is_some_side(tris, #[trigger] now[i]) by {
            if i < before.len() {
                assert(is_some_side(tris, before[i]));
            } else {
                let j = (n - 1) / 3;
                let m = (n - 1) % 3;
                assert(0 <= j < tris.len() && 0 <= m < 3);
                assert(now[i] == side(tris[j], m));
            }
        }
    }
}

/// Whether the triangle has one of the three indices `s` as a corner.
pub open spec fn touches(c: Corners, s: Corners) -> bool {
    let hit = |v: usize| v == s.0 || v == s.1 || v == s.2;
    hit(c.0) || hit(c.1) || hit(c.2)
}

/// The triangles among the first `n` that have none of `s` as a corner.
pub open spec fn without(tris: Seq<Corners>, s: Corners, n: int) -> Seq<Corners>
    decreases n,
{
    if n <= 0 {
        Seq::empty()
    } else {
        let before = without(tris, s, n - 1);
        if touches(tris[n - 1], s) {
            before
        } else {
            before.push(tris[n - 1])
        }
    }
}

/// The smaller of two coordinates.
pub open spec fn min_coord(a: i64, b: i64) -> i64 {
    if a <= b {
        a
    } else {
        b
    }
}

/// The larger of two coordinates.
pub open spec fn max_coord(a: i64, b: i64) -> i64 {
    if a >= b {
        a
    } else {
        b
    }
}

/// The axis-aligned bounds of a point list as `(min_x, max_x, min_y, max_y)`;
/// four zeros for the empty list.
pub open spec fn bounding_box(points: Seq<Point>) -> (i64, i64, i64, i64)
    decreases points.len(),
{
    if points.len() == 0 {
        (0, 0, 0, 0)
    } else if points.len() == 1 {
        (points[0].x, points[0].x, points[0].y, points[0].y)
    } else {
        let b = bounding_box(points.drop_last());
        let p = points.last();
        (min_coord(b.0, p.x), max_coord(b.1, p.x), min_coord(b.2, p.y), max_coord(b.3, p.y))
    }
}

/// The bounds enclose every point, each bound is the coordinate of some
/// point, and they lie within any limit that all the points lie within.
pub proof fn lemma_bounding_box(points: Seq<Point>)
    ensures
        forall|i: int|
            0 <= i < points.len() ==> bounding_box(points).0 <= (#[trigger] points[i]).x
                <= bounding_box(points).1 && bounding_box(points).2 <= points[i].y
                <= bounding_box(points).3,
        points.len() > 0 ==> exists|i: int|
            0 <= i < points.len() && (#[trigger] points[i]).x == bounding_box(points).0,
        points.len() > 0 ==> exists|i: int|
            0 <= i < points.len() && (#[trigger] points[i]).x == bounding_box(points).1,
        points.len() > 0 ==> exists|i: int|
            0 <= i < points.len() && (#[trigger] points[i]).y == bounding_box(points).2,
        points.len() > 0 ==> exists|i: int|
            0 <= i < points.len() && (#[trigger] points[i]).y == bounding_box(points).3,
        bounding_box(points).0 <= bounding_box(points).1,
        bounding_box(points).2 <= bounding_box(points).3,
        forall|limit: int|
            0 <= limit && all_within(points, limit) ==> -limit <= bounding_box(points).0
                && bounding_box(points).1 <= limit && -limit <= bounding_box(points).2
                && bounding_box(points).3 <= limit,
    decreases points.len(),
{
    if points.len() == 1 {
        assert(points[0].x == bounding_box(points).0);
        assert forall|limit: int| 0 <= limit && all_within(points, limit) implies -limit
            <= bounding_box(points).0 && bounding_box(points).1 <= limit && -limit
            <= bounding_box(points).2 && bounding_box(points).3 <= limit by {
            assert(points[0].within(limit));
        }
    } else if points.len() > 1 {
        let head = points.drop_last();
        let last = points.len() - 1;
        lemma_bounding_box(head);
        assert forall|i: int| 0 <= i < points.len() implies bounding_box(points).0 <= (
        #[trigger] points[i]).x <= bounding_box(points).1 && bounding_box(points).2
            <= points[i].y <= bounding_box(points).3 by {
            if i < last {
                assert(head[i] == points[i]);
            }
        }
        let b = bounding_box(head);
        let i0 = choose|i: int| 0 <= i < head.len() && (#[trigger] head[i]).x == b.0;
        let i1 = choose|i: int| 0 <= i < head.len() && (#[trigger] head[i]).x == b.1;
        let i2 = choose|i: int| 0 <= i < head.len() && (#[trigger] head[i]).y == b.2;
        let i3 = choose|i: int| 0 <= i < head.len() && (#[trigger] head[i]).y == b.3;
        assert(points[i0] == head[i0] && points[i1] == head[i1] && points[i2] == head[i2]
            && points[i3] == head[i3]);
        let j0 = if points[last].x <= b.0 { last } else { i0 };
        let j1 = if points[last].x >= b.1 { last } else { i1 };
        let j2 = if points[last].y <= b.2 { last } else { i2 };
        let j3 = if points[last].y >= b.3 { last } else { i3 };
        assert(points[j0].x == bounding_box(points).0);
        assert(points[j1].x == bounding_box(points).1);
        assert(points[j2].y == bounding_box(points).2);
        assert(points[j3].y == bounding_box(points).3);
        assert forall|limit: int| 0 <= limit && all_within(points, limit) implies -limit
            <= bounding_box(points).0 && bounding_box(points).1 <= limit && -limit
            <= bounding_box(points).2 && bounding_box(points).3 <= limit by {
            assert(points[j0].within(limit));
            assert(points[j1].within(limit));
            assert(points[j2].within(limit));
            assert(points[j3].within(limit));
        }
    }
}

/// The three corners of the bootstrap triangle for the given bounds: twenty
/// times the larger side of the bounds away from their midpoint.
pub open spec fn super_triangle_of(b: (i64, i64, i64, i64)) -> Seq<Point> {
    let dx = b.1 - b.0;
    let dy = b.3 - b.2;
    let delta_max = if dx >= dy {
        dx
    } else {
        dy
    };
    let mid_x = trunc_div(b.0 + b.1, 2);
    let mid_y = trunc_div(b.2 + b.3, 2);
    seq![
        Point { x: (mid_x - 20 * delta_max) as i64, y: (mid_y - delta_max) as i64 },
        Point { x: mid_x as i64, y: (mid_y + 20 * delta_max) as i64 },
        Point { x: (mid_x + 20 * delta_max) as i64, y: (mid_y - delta_max) as i64 },
    ]
}

/// The centroid of the triangle with corners `c` over `points`.
pub open spec fn centroid_of(c: Corners, points: Seq<Point>) -> Point {
    centroid_spec(points[c.0 as int], points[c.1 as int], points[c.2 as int])
}

/// Whether the centroid of the triangle lies inside the closed polygon made
/// of the first `count` points.
pub open spec fn centroid_inside(points: Seq<Point>, c: Corners, count: int) -> bool {
    inside_polygon(points.take(count), centroid_of(c, points))
}

/// The triangles among the first `n` whose centroid lies inside the polygon
/// made of the first `count` points, in order.
pub open spec fn interior_only(points: Seq<Point>, tris: Seq<Corners>, count: int, n: int) -> Seq<
    Corners,
>
    decreases n,
{
    if n <= 0 {
        Seq::empty()
    } else {
        let before = interior_only(points, tris, count, n - 1);
        if centroid_inside(points, tris[n - 1], count) {
            before.push(tris[n - 1])
        } else {
            before
        }
    }
}

/// Most passes of interior refinement.
pub const MAX_REFINEMENT_PASSES: usize = 50;

/// Interior refinement adds no point once the list holds this many.
pub const MAX_POINTS: usize = 10000;

/// Most points that one pass of interior refinement adds.
pub const POINTS_PER_PASS: usize = 5;

/// A triangle is refined when its area exceeds `max_area` and its centroid
/// lies inside the boundary, the polygon of the first `count` points.
pub open spec fn needs_refinement(points: Seq<Point>, c: Corners, max_area: int, count: int) -> bool {
    vstd::math::abs(corners_jacobian(c, points)) > max_area && centroid_inside(points, c, count)
}

/// The points that one pass adds, looking at the first `n` triangles: the
/// centroids of the first triangles that need refinement, five at most.
pub open spec fn refinement_points(
    points: Seq<Point>,
    tris: Seq<Corners>,
    max_area: int,
    count: int,
    n: int,
) -> Seq<Point>
    decreases n,
{
    if n <= 0 {
        Seq::empty()
    } else {
        let before = refinement_points(points, tris, max_area, count, n - 1);
        if before.len() < POINTS_PER_PASS && needs_refinement(points, tris[n - 1], max_area, count) {
            before.push(centroid_of(tris[n - 1], points))
        } else {
            before
        }
    }
}

/// The points and triangles after the first `k` of `new_points` were
/// appended and inserted one by one; nothing is added once the list holds
/// `MAX_POINTS` points.
pub open spec fn with_new_points(
    points: Seq<Point>,
    tris: Seq<Corners>,
    new_points: Seq<Point>,
    k: int,
) -> (Seq<Point>, Seq<Corners>)
    decreases k,
{
    if k <= 0 {
        (points, tris)
    } else {
        let (p, t) = with_new_points(points, tris, new_points, k - 1);
        if p.len() >= MAX_POINTS {
            (p, t)
        } else {
            (p.push(new_points[k - 1]), insertion(p.push(new_points[k - 1]), t, p.len() as usize))
        }
    }
}

/// The points and triangles after at most `passes` passes of interior
/// refinement.  Refinement ends early when the list holds `MAX_POINTS`
/// points or when a pass finds no triangle to refine.
pub open spec fn refined(
    points: Seq<Point>,
    tris: Seq<Corners>,
    max_area: int,
    count: int,
    passes: nat,
) -> (Seq<Point>, Seq<Corners>)
    decreases passes,
{
    if passes == 0 || points.len() >= MAX_POINTS {
        (points, tris)
    } else {
        let new_points = refinement_points(points, tris, max_area, count, tris.len() as int);
        if new_points.len() == 0 {
            (points, tris)
        } else {
            let (p, t) = with_new_points(points, tris, new_points, new_points.len() as int);
            refined(p, t, max_area, count, (passes - 1) as nat)
        }
    }
}

/// The lattice points of one row that lie inside the polygon: from `x` on,
/// every `step` units up to `max_x`, at height `y`.
pub open spec fn grid_row(polygon: Seq<Point>, x: int, y: int, step: int, max_x: int) -> Seq<Point>
    decreases
        if x <= max_x {
            max_x - x + 1
        } else {
            0
        },
{
    if x > max_x || step < 1 {
        Seq::empty()
    } else {
        let rest = grid_row(polygon, x + step, y, step, max_x);
        let p = Point { x: x as i64, y: y as i64 };
        if inside_polygon(polygon, p) {
            seq![p] + rest
        } else {
            rest
        }
    }
}

/// The rows of the staggered lattice from row number `row` at height `y` up
/// to `max_y`: rows lie `row_step` apart, and every odd row starts half a
/// step to the right.
pub open spec fn hex_rows(
    polygon: Seq<Point>,
    row: int,
    y: int,
    b: (i64, i64, i64, i64),
    step: int,
    row_step: int,
) -> Seq<Point>
    decreases
        if y <= b.3 {
            b.3 - y + 1
        } else {
            0
        },
{
    if y > b.3 || row_step < 1 {
        Seq::empty()
    } else {
        grid_row(
            polygon,
            b.0 + if row % 2 == 1 {
                step / 2
            } else {
                0
            },
            y,
            step,
            b.1 as int,
        ) + hex_rows(polygon, row + 1, y + row_step, b, step, row_step)
    }
}

/// The distance between two rows of the lattice for a given step: the step
/// times half the square root of three, rounded down, and one at least.
pub open spec fn hex_row_step(step: int) -> int {
    if isqrt_spec(3 * (step * step) / 4) < 1 {
        1
    } else {
        isqrt_spec(3 * (step * step) / 4)
    }
}

/// The seed points for a boundary and a target edge length: the staggered
/// lattice inside the boundary, then the boundary samples.
pub open spec fn hexagonal_grid(boundary: Seq<Point>, step: int) -> Seq<Point> {
    hex_rows(
        boundary,
        0,
        bounding_box(boundary).2 as int,
        bounding_box(boundary),
        step,
        hex_row_step(step),
    ) + boundary_samples(boundary, step, boundary.len() as int)
}

/// Longest target edge length that the seeding takes: the largest distance
/// between two coordinates of working points.
pub const MAX_EDGE_LENGTH: u64 = 82_000_000;

/// Working state of one triangulation: the points, with the three corners of
/// the bootstrap triangle behind them while the triangulation is built, and
/// the current triangles.
pub struct DelaunayTriangulator {
    pub points: Vec<Point>,
    pub triangles: Vec<Triangle>,
    pub super_triangle_indices: [usize; 3],
}

impl DelaunayTriangulator {
    /// The three bootstrap indices as a triple.
    pub open spec fn super_corners(self) -> Corners {
        (
            self.super_triangle_indices[0],
            self.super_triangle_indices[1],
            self.super_triangle_indices[2],
        )
    }

    /// All points are working points, and every triangle indexes them with
    /// an up-to-date circumcircle.
    pub open spec fn wf(self) -> bool {
        &&& all_within(self.points@, EXTENT as int)
        &&& forall|i: int|
            0 <= i < self.triangles.len() ==> (#[trigger] self.triangles[i]).wf(self.points@)
    }

    /// No triangle turns clockwise.
    pub open spec fn non_inverted(self) -> bool {
        forall|i: int|
            0 <= i < self.triangles.len() ==> (#[trigger] self.triangles[i]).jacobian_spec(
                self.points@,
            ) >= 0
    }

    /// The three bootstrap points are the last three points, and the
    /// bootstrap indices name them in one of the two windings.
    pub open spec fn bootstrapped(self) -> bool {
        let n = self.points.len() - 3;
        &&& self.points.len() >= 3
        &&& (self.super_corners() == ((n) as usize, (n + 1) as usize, (n + 2) as usize)
            || self.super_corners() == ((n + 2) as usize, (n + 1) as usize, (n) as usize))
    }

    /// Starts a triangulation of `points`: appends the three corners of a
    /// bootstrap triangle around them and seeds the triangle list with that
    /// one triangle, wound counter-clockwise.
    pub fn new(points: Vec<Point>) -> (t: Self)
        requires
            all_within(points@, COORD_LIMIT as int),
        ensures
            t.points@ == points@ + super_triangle_of(bounding_box(points@)),
            t.triangles.len() == 1,
            t.triangles[0].corners() == t.super_corners(),
            t.super_corners() == if cross(
                t.points[points.len() as int],
                t.points[points.len() + 1],
                t.points[points.len() + 2],
            ) < 0 {
                ((points.len() + 2) as usize, (points.len() + 1) as usize, points.len())
            } else {
                (points.len(), (points.len() + 1) as usize, (points.len() + 2) as usize)
            },
            t.wf(),
            t.non_inverted(),
            t.bootstrapped(),
    {
        let mut points = points;
        let ghost given = points@;
        let bounds = Self::calculate_bounds(points.as_slice());
        proof {
            lemma_bounding_box(given);
        }
        let super_triangle = Self::create_super_triangle(bounds);
        let given_count = points.len();
        points.push(super_triangle[0]);
        points.push(super_triangle[1]);
        points.push(super_triangle[2]);
        assert(points@ =~= given + super_triangle_of(bounding_box(given)));
        assert forall|i: int| 0 <= i < points.len() implies (#[trigger] points[i]).within(
            EXTENT as int,
        ) by {
            if i < given_count {
                assert(given[i].within(COORD_LIMIT as int));
            }
        }
        let total = points.len();
        assert(total == given_count + 3);
        let super_triangle_indices = [given_count, given_count + 1, given_count + 2];
        let first = Triangle::new(super_triangle_indices, points.as_slice());
        let mut triangulator = Self { points, triangles: Vec::new(), super_triangle_indices };
        if first.jacobian(triangulator.points.as_slice()) < 0 {
            triangulator.super_triangle_indices =
            [super_triangle_indices[2], super_triangle_indices[1], super_triangle_indices[0]];
            proof {
                lemma_cross_reverse(
                    triangulator.points[given_count as int],
                    triangulator.points[given_count + 1],
                    triangulator.points[given_count + 2],
                );
            }
        }
        let seed = Triangle::new(
            triangulator.super_triangle_indices,
            triangulator.points.as_slice(),
        );
        triangulator.triangles.push(seed);
        triangulator
    }

    /// The axis-aligned bounds of the points as `(min_x, max_x, min_y,
    /// max_y)`; four zeros when there is no point.
    pub fn calculate_bounds(points: &[Point]) -> (b: (i64, i64, i64, i64))
        ensures
            b == bounding_box(points@),
    {
        if points.len() == 0 {
            return (0, 0, 0, 0);
        }
        let mut min_x: i64 = points[0].x;
        let mut max_x: i64 = points[0].x;
        let mut min_y: i64 = points[0].y;
        let mut max_y: i64 = points[0].y;
        let mut i: usize = 1;
        assert(points@.take(1).len() == 1 && points@.take(1)[0] == points@[0]);
        while i < points.len()
            invariant
                1 <= i <= points.len(),
                (min_x, max_x, min_y, max_y) == bounding_box(points@.take(i as int)),
            decreases points.len() - i,
        {
            let point = points[i];
            assert(points@.take(i as int + 1).drop_last() =~= points@.take(i as int));
            assert(points@.take(i as int + 1).last() == point);
            if point.x < min_x {
                min_x = point.x;
            }
            if point.x > max_x {
                max_x = point.x;
            }
            if point.y < min_y {
                min_y = point.y;
            }
            if point.y > max_y {
                max_y = point.y;
            }
            i += 1;
        }
        assert(points@.take(points.len() as int) =~= points@);
        (min_x, max_x, min_y, max_y)
    }

    /// The corners of the bootstrap triangle around the given bounds.
    fn create_super_triangle(bounds: (i64, i64, i64, i64)) -> (corners: Vec<Point>)
        requires
            -COORD_LIMIT <= bounds.0 <= bounds.1 <= COORD_LIMIT,
            -COORD_LIMIT <= bounds.2 <= bounds.3 <= COORD_LIMIT,
        ensures
            corners@ == super_triangle_of(bounds),
            corners.len() == 3,
            all_within(corners@, EXTENT as int),
    {
        let (min_x, max_x, min_y, max_y) = bounds;
        let dx: i64 = max_x - min_x;
        let dy: i64 = max_y - min_y;
        let delta_max: i64 = if dx >= dy {
            dx
        } else {
            dy
        };
        let mid_x: i64 = (min_x + max_x) / 2;
        let mid_y: i64 = (min_y + max_y) / 2;
        let left = Point::new(mid_x - 20 * delta_max, mid_y - delta_max);
        let top = Point::new(mid_x, mid_y + 20 * delta_max);
        let right = Point::new(mid_x + 20 * delta_max, mid_y - delta_max);
        let corners = vec![left, top, right];
        assert(corners@ =~= super_triangle_of(bounds));
        corners
    }

    /// Runs the whole triangulation: inserts every point in the order of the
    /// point list, drops each triangle that has a bootstrap corner, and cuts
    /// the point list back to the points that were given.
    pub fn triangulate(&mut self) -> (r: Result<Mesh, MeshError>)
        requires
            old(self).wf(),
            old(self).bootstrapped(),
        ensures
            r is Ok,
            r->Ok_0.vertices@ == old(self).points@.take(old(self).points.len() - 3),
            r->Ok_0.vertices.len() == old(self).points.len() - 3,
            r->Ok_0.tri_corners() == triangulation(
                old(self).points@,
                corners_of(old(self).triangles@),
                old(self).super_corners(),
            ),
            r->Ok_0.triangles_in_bounds(),
            r->Ok_0.triangles_denormalized(),
            r->Ok_0.quads is None,
            r->Ok_0.quad_indices is None,
            old(self).non_inverted() ==> forall|i: int|
                0 <= i < r->Ok_0.tri_corners().len() ==> corners_jacobian(
                    #[trigger] r->Ok_0.tri_corners()[i],
                    r->Ok_0.vertices@,
                ) >= 0,
            final(self).points@ == r->Ok_0.vertices@,
            corners_of(final(self).triangles@) == r->Ok_0.tri_corners(),
            final(self).super_triangle_indices == old(self).super_triangle_indices,
            final(self).wf(),
            old(self).non_inverted() ==> final(self).non_inverted(),
    {
        let given_count = self.points.len() - 3;
        let ghost points = self.points@;
        let ghost start = corners_of(self.triangles@);
        let mut i: usize = 0;
        while i < given_count
            invariant
                i <= given_count,
                given_count == points.len() - 3,
                self.points@ == points,
                self.super_triangle_indices == old(self).super_triangle_indices,
                self.wf(),
                old(self).non_inverted() ==> self.non_inverted(),
                corners_of(self.triangles@) == insertions(points, start, i as nat),
            decreases given_count - i,
        {
            let _ = self.bowyer_watson_add_point(i);
            i += 1;
        }
        self.remove_super_triangle();
        let ghost all = self.triangles@;
        self.points.truncate(given_count);
        assert(self.points@ =~= points.take(given_count as int));
        assert forall|k: int| 0 <= k < self.triangles.len() implies (
        #[trigger] self.triangles[k]).wf(self.points@) && self.triangles[k].jacobian_spec(
            self.points@,
        ) == self.triangles[k].jacobian_spec(points) by {
            let t = self.triangles[k];
            assert(t.wf(points));
            assert(!touches(t.corners(), self.super_corners()));
        }
        let vertices = copy_points(&self.points);
        let triangles = copy_triangles(&self.triangles);
        let mesh = Mesh::new(vertices, triangles);
        assert(mesh.tri_corners() =~= corners_of(self.triangles@));
        assert forall|k: int| 0 <= k < mesh.tri_corners().len() implies corners_jacobian(
            #[trigger] mesh.tri_corners()[k],
            mesh.vertices@,
        ) == self.triangles[k].jacobian_spec(self.points@) by {}
        Ok(mesh)
    }

    /// Drops every triangle that has a bootstrap index as a corner.
    pub fn remove_super_triangle(&mut self)
        requires
            old(self).wf(),
        ensures
            final(self).points@ == old(self).points@,
            final(self).super_triangle_indices == old(self).super_triangle_indices,
            corners_of(final(self).triangles@) == without(
                corners_of(old(self).triangles@),
                old(self).super_corners(),
                old(self).triangles.len() as int,
            ),
            forall|i: int|
                0 <= i < final(self).triangles.len() ==> !touches(
                    (#[trigger] final(self).triangles[i]).corners(),
                    old(self).super_corners(),
                ),
            final(self).wf(),
            old(self).non_inverted() ==> final(self).non_inverted(),
    {
        let ghost tris = corners_of(self.triangles@);
        let ghost s = self.super_corners();
        let mut kept: Vec<Triangle> = Vec::new();
        let mut i: usize = 0;
        while i < self.triangles.len()
            invariant
                i <= self.triangles.len(),
                *self == *old(self),
                self.wf(),
                tris == corners_of(self.triangles@),
                s == self.super_corners(),
                corners_of(kept@) == without(tris, s, i as int),
                forall|j: int| 0 <= j < kept.len() ==> (#[trigger] kept[j]).wf(self.points@),
                forall|j: int| 0 <= j < kept.len() ==> !touches((#[trigger] kept[j]).corners(), s),
                old(self).non_inverted() ==> forall|j: int|
                    0 <= j < kept.len() ==> (#[trigger] kept[j]).jacobian_spec(self.points@) >= 0,
            decreases self.triangles.len() - i,
        {
            let t = self.triangles[i];
            assert(t.wf(self.points@));
            assert(tris[i as int] == t.corners());
            let s0 = self.super_triangle_indices[0];
            let s1 = self.super_triangle_indices[1];
            let s2 = self.super_triangle_indices[2];
            let mut hit = false;
            let mut k: usize = 0;
            while k < 3
                invariant
                    k <= 3,
                    s == (s0, s1, s2),
                    hit == exists|m: int|
                        0 <= m < k && (corner(t.corners(), m) == s0 || corner(t.corners(), m) == s1
                            || corner(t.corners(), m) == s2),
                decreases 3 - k,
            {
                let v = t.vertices[k];
                assert(v == corner(t.corners(), k as int));
                if v == s0 || v == s1 || v == s2 {
                    hit = true;
                }
                k += 1;
            }
            assert(hit == touches(t.corners(), s)) by {
                if hit {
                    let m = choose|m: int|
                        0 <= m < 3 && (corner(t.corners(), m) == s0 || corner(t.corners(), m) == s1
                            || corner(t.corners(), m) == s2);
                    assert(m == 0 || m == 1 || m == 2);
                } else {
                    assert(!(corner(t.corners(), 0) == s0 || corner(t.corners(), 0) == s1
                        || corner(t.corners(), 0) == s2));
                    assert(!(corner(t.corners(), 1) == s0 || corner(t.corners(), 1) == s1
                        || corner(t.corners(), 1) == s2));
                    assert(!(corner(t.corners(), 2) == s0 || corner(t.corners(), 2) == s1
                        || corner(t.corners(), 2) == s2));
                }
            }
            if !hit {
                kept.push(t);
                assert(corners_of(kept@) =~= without(tris, s, i as int).push(t.corners()));
            }
            i += 1;
        }
        self.triangles = kept;
    }

    /// Drops every triangle whose centroid lies outside the boundary, the
    /// closed polygon made of the first `boundary_count` points.
    pub fn filter_outside_triangles(&mut self, boundary_count: usize)
        requires
            old(self).wf(),
            boundary_count <= old(self).points.len(),
        ensures
            final(self).points@ == old(self).points@,
            final(self).super_triangle_indices == old(self).super_triangle_indices,
            corners_of(final(self).triangles@) == interior_only(
                old(self).points@,
                corners_of(old(self).triangles@),
                boundary_count as int,
                old(self).triangles.len() as int,
            ),
            final(self).wf(),
            old(self).non_inverted() ==> final(self).non_inverted(),
    {
        let ghost tris = corners_of(self.triangles@);
        let mut kept: Vec<Triangle> = Vec::new();
        let mut i: usize = 0;
        while i < self.triangles.len()
            invariant
                i <= self.triangles.len(),
                *self == *old(self),
                self.wf(),
                boundary_count <= self.points.len(),
                tris == corners_of(self.triangles@),
                corners_of(kept@) == interior_only(
                    self.points@,
                    tris,
                    boundary_count as int,
                    i as int,
                ),
                forall|j: int| 0 <= j < kept.len() ==> (#[trigger] kept[j]).wf(self.points@),
                old(self).non_inverted() ==> forall|j: int|
                    0 <= j < kept.len() ==> (#[trigger] kept[j]).jacobian_spec(self.points@) >= 0,
            decreases self.triangles.len() - i,
        {
            let t = self.triangles[i];
            assert(t.wf(self.points@));
            assert(tris[i as int] == t.corners());
            if self.centroid_is_inside(&t, boundary_count) {
                kept.push(t);
                assert(corners_of(kept@) =~= interior_only(
                    self.points@,
                    tris,
                    boundary_count as int,
                    i as int,
                ).push(t.corners()));
            }
            i += 1;
        }
        self.triangles = kept;
    }

    /// Whether the centroid of `t` lies inside the polygon of the first
    /// `boundary_count` points.
    fn centroid_is_inside(&self, t: &Triangle, boundary_count: usize) -> (r: bool)
        requires
            self.wf(),
            t.wf(self.points@),
            boundary_count <= self.points.len(),
        ensures
            r == centroid_inside(self.points@, t.corners(), boundary_count as int),
    {
        let c = centroid(
            &self.points[t.vertices[0]],
            &self.points[t.vertices[1]],
            &self.points[t.vertices[2]],
        );
        self.is_point_inside_polygon(&c, boundary_count)
    }

    /// Ray-casting test of `point` against the closed polygon made of the
    /// first `boundary_count` points.
    fn is_point_inside_polygon(&self, point: &Point, boundary_count: usize) -> (r: bool)
        requires
            all_within(self.points@, EXTENT as int),
            point.within(EXTENT as int),
            boundary_count <= self.points.len(),
        ensures
            r == inside_polygon(self.points@.take(boundary_count as int), *point),
    {
        assert forall|i: int| 0 <= i < boundary_count implies (#[trigger] self.points@.take(
            boundary_count as int,
        )[i]).within(EXTENT as int) by {
            assert(self.points@[i].within(EXTENT as int));
        }
        point_in_polygon(&self.points, boundary_count, point)
    }

    /// Collects the points that the next pass of interior refinement adds.
    fn collect_refinement_points(&self, max_area: u64, boundary_count: usize) -> (new_points: Vec<
        Point,
    >)
        requires
            self.wf(),
            boundary_count <= self.points.len(),
        ensures
            new_points@ == refinement_points(
                self.points@,
                corners_of(self.triangles@),
                max_area as int,
                boundary_count as int,
                self.triangles.len() as int,
            ),
            all_within(new_points@, EXTENT as int),
    {
        let ghost tris = corners_of(self.triangles@);
        let mut new_points: Vec<Point> = Vec::new();
        let mut i: usize = 0;
        while i < self.triangles.len()
            invariant
                i <= self.triangles.len(),
                self.wf(),
                boundary_count <= self.points.len(),
                tris == corners_of(self.triangles@),
                new_points@ == refinement_points(
                    self.points@,
                    tris,
                    max_area as int,
                    boundary_count as int,
                    i as int,
                ),
                all_within(new_points@, EXTENT as int),
            decreases self.triangles.len() - i,
        {
            let t = self.triangles[i];
            assert(t.wf(self.points@));
            assert(tris[i as int] == t.corners());
            if new_points.len() < POINTS_PER_PASS {
                let area = t.area(self.points.as_slice());
                if area > max_area as u128 {
                    let c = centroid(
                        &self.points[t.vertices[0]],
                        &self.points[t.vertices[1]],
                        &self.points[t.vertices[2]],
                    );
                    if self.is_point_inside_polygon(&c, boundary_count) {
                        new_points.push(c);
                    }
                }
            }
            i += 1;
        }
        new_points
    }

    /// Refines the interior: while a triangle inside the boundary is larger
    /// than `max_area`, adds the centroids of the first such triangles, five
    /// a pass at most, each by an incremental insertion.  At most fifty
    /// passes run, and none once the point list holds ten thousand points.
    pub fn refine_interior(&mut self, max_area: u64, _min_angle: u64, boundary_count: usize) -> (r:
        Result<(), MeshError>)
        requires
            old(self).wf(),
            boundary_count <= old(self).points.len(),
        ensures
            r is Ok,
            (final(self).points@, corners_of(final(self).triangles@)) == refined(
                old(self).points@,
                corners_of(old(self).triangles@),
                max_area as int,
                boundary_count as int,
                MAX_REFINEMENT_PASSES as nat,
            ),
            final(self).super_triangle_indices == old(self).super_triangle_indices,
            final(self).wf(),
            old(self).non_inverted() ==> final(self).non_inverted(),
            old(self).points@ == final(self).points@.take(old(self).points.len() as int),
    {
        let ghost goal = refined(
            self.points@,
            corners_of(self.triangles@),
            max_area as int,
            boundary_count as int,
            MAX_REFINEMENT_PASSES as nat,
        );
        let mut iteration: usize = 0;
        let mut done = false;
        while iteration < MAX_REFINEMENT_PASSES && !done && self.points.len() < MAX_POINTS
            invariant
                iteration <= MAX_REFINEMENT_PASSES,
                self.wf(),
                boundary_count <= old(self).points.len() <= self.points.len(),
                self.super_triangle_indices == old(self).super_triangle_indices,
                old(self).non_inverted() ==> self.non_inverted(),
                old(self).points@ == self.points@.take(old(self).points.len() as int),
                goal == refined(
                    self.points@,
                    corners_of(self.triangles@),
                    max_area as int,
                    boundary_count as int,
                    if done {
                        0nat
                    } else {
                        (MAX_REFINEMENT_PASSES - iteration) as nat
                    },
                ),
            decreases MAX_REFINEMENT_PASSES - iteration + if done { 0int } else { 1int },
        {
            let new_points = self.collect_refinement_points(max_area, boundary_count);
            if new_points.len() == 0 {
                done = true;
            } else {
                let ghost start_points = self.points@;
                let ghost start_tris = corners_of(self.triangles@);
                let mut k: usize = 0;
                while k < new_points.len()
                    invariant
                        k <= new_points.len(),
                        self.wf(),
                        all_within(new_points@, EXTENT as int),
                        old(self).points.len() <= start_points.len() <= self.points.len(),
                        self.super_triangle_indices == old(self).super_triangle_indices,
                        old(self).non_inverted() ==> self.non_inverted(),
                        start_points == self.points@.take(start_points.len() as int),
                        (self.points@, corners_of(self.triangles@)) == with_new_points(
                            start_points,
                            start_tris,
                            new_points@,
                            k as int,
                        ),
                    decreases new_points.len() - k,
                {
                    if self.points.len() < MAX_POINTS {
                        let point_index = self.points.len();
                        let ghost before = *self;
                        self.points.push(new_points[k]);
                        proof {
                            assert forall|j: int| 0 <= j < self.triangles.len() implies (
                            #[trigger] self.triangles[j]).wf(self.points@)
                                && self.triangles[j].jacobian_spec(self.points@)
                                == self.triangles[j].jacobian_spec(before.points@) by {
                                assert(before.triangles[j].wf(before.points@));
                            }
                            assert(self.points@.take(start_points.len() as int)
                                =~= before.points@.take(start_points.len() as int));
                        }
                        let _ = self.add_point(point_index);
                    }
                    k += 1;
                }
                proof {
                    assert(self.points@.take(old(self).points.len() as int)
                        =~= start_points.take(old(self).points.len() as int));
                    assert(self.points@.take(boundary_count as int) =~= start_points.take(
                        boundary_count as int,
                    ));
                }
                iteration += 1;
            }
        }
        Ok(())
    }

    /// Seeds a triangulation: the points of a staggered hexagonal lattice
    /// that lie inside the boundary, followed by the boundary itself cut
    /// into pieces no longer than the target edge length.
    pub fn generate_hexagonal_grid(boundary: &[Point], target_edge_length: u64) -> (points: Vec<
        Point,
    >)
        requires
            all_within(boundary@, COORD_LIMIT as int),
            1 <= target_edge_length <= MAX_EDGE_LENGTH,
        ensures
            points@ == hexagonal_grid(boundary@, target_edge_length as int),
            all_within(points@, COORD_LIMIT as int),
    {
        let bounds = Self::calculate_bounds(boundary);
        proof {
            lemma_bounding_box(boundary@);
        }
        let (min_x, max_x, min_y, max_y) = bounds;
        let step: i128 = target_edge_length as i128;
        proof {
            lemma_mul_bound(step as int, step as int, 82_000_000, 82_000_000);
        }
        let root: u64 = isqrt((3 * (step * step) / 4) as u128);
        let hex_height: i128 = if root < 1 {
            1
        } else {
            root as i128
        };
        let half: i128 = step / 2;
        let ghost total = hex_rows(boundary@, 0, min_y as int, bounds, step as int, hex_height as int);
        let mut points: Vec<Point> = Vec::new();
        let mut row: u64 = 0;
        let mut y: i128 = min_y as i128;
        while y <= max_y as i128
            invariant
                bounds == (min_x, max_x, min_y, max_y),
                -COORD_LIMIT <= min_x <= max_x <= COORD_LIMIT,
                -COORD_LIMIT <= min_y <= max_y <= COORD_LIMIT,
                all_within(boundary@, COORD_LIMIT as int),
                1 <= step <= MAX_EDGE_LENGTH,
                half == step / 2,
                1 <= hex_height <= u64::MAX,
                min_y <= y,
                y <= max_y ==> row <= y - min_y,
                all_within(points@, COORD_LIMIT as int),
                points@ + hex_rows(
                    boundary@,
                    row as int,
                    y as int,
                    bounds,
                    step as int,
                    hex_height as int,
                ) == total,
            decreases
                if y <= max_y {
                    max_y - y + 1
                } else {
                    0
                },
        {
            let x_offset: i128 = if row % 2 == 1 {
                half
            } else {
                0
            };
            let ghost above = hex_rows(
                boundary@,
                row as int + 1,
                y as int + hex_height as int,
                bounds,
                step as int,
                hex_height as int,
            );
            let ghost row_start = points@;
            let ghost whole_row = grid_row(
                boundary@,
                min_x as int + x_offset as int,
                y as int,
                step as int,
                max_x as int,
            );
            let mut x: i128 = min_x as i128 + x_offset;
            while x <= max_x as i128
                invariant
                    -COORD_LIMIT <= min_x <= max_x <= COORD_LIMIT,
                    -COORD_LIMIT <= min_y <= y <= max_y <= COORD_LIMIT,
                    all_within(boundary@, COORD_LIMIT as int),
                    1 <= step <= MAX_EDGE_LENGTH,
                    min_x <= x,
                    all_within(points@, COORD_LIMIT as int),
                    points@ + grid_row(boundary@, x as int, y as int, step as int, max_x as int)
                        == row_start + whole_row,
                decreases
                    if x <= max_x {
                        max_x - x + 1
                    } else {
                        0
                    },
            {
                let point = Point::new(x as i64, y as i64);
                let ghost sofar = points@;
                let ghost rest = grid_row(
                    boundary@,
                    x as int + step as int,
                    y as int,
                    step as int,
                    max_x as int,
                );
                if Self::is_point_inside_boundary_static(&point, boundary) {
                    points.push(point);
                    assert(points@ + rest =~= sofar + (seq![point] + rest));
                }
                x = x + step;
            }
            assert(points@ =~= row_start + whole_row);
            assert(points@ + above =~= row_start + (whole_row + above));
            row = row + 1;
            y = y + hex_height;
        }
        assert(points@ =~= total);
        let boundary_points = Self::sample_boundary_points(boundary, target_edge_length);
        let ghost lattice = points@;
        let mut k: usize = 0;
        while k < boundary_points.len()
            invariant
                k <= boundary_points.len(),
                all_within(boundary_points@, COORD_LIMIT as int),
                all_within(points@, COORD_LIMIT as int),
                points@ == lattice + boundary_points@.take(k as int),
            decreases boundary_points.len() - k,
        {
            points.push(boundary_points[k]);
            assert(points@ =~= lattice + boundary_points@.take(k as int + 1));
            k += 1;
        }
        assert(boundary_points@.take(boundary_points.len() as int) =~= boundary_points@);
        points
    }

    /// The boundary corners, with every edge longer than the target length
    /// cut evenly into pieces no longer than it.
    fn sample_boundary_points(boundary: &[Point], target_edge_length: u64) -> (samples: Vec<Point>)
        requires
            all_within(boundary@, COORD_LIMIT as int),
            target_edge_length >= 1,
        ensures
            samples@ == boundary_samples(
                boundary@,
                target_edge_length as int,
                boundary.len() as int,
            ),
            all_within(samples@, COORD_LIMIT as int),
            samples.len() >= boundary.len(),
    {
        assert(all_within(boundary@, EXTENT as int)) by {
            assert forall|i: int| 0 <= i < boundary@.len() implies (#[trigger] boundary@[i]).within(
                EXTENT as int,
            ) by {
                assert(boundary@[i].within(COORD_LIMIT as int));
            }
        }
        subdivide_boundary(boundary, target_edge_length)
    }

    /// Ray-casting test of `point` against the closed polygon `boundary`.
    fn is_point_inside_boundary_static(point: &Point, boundary: &[Point]) -> (r: bool)
        requires
            all_within(boundary@, EXTENT as int),
            point.within(EXTENT as int),
        ensures
            r == inside_polygon(boundary@, *point),
    {
        assert(boundary@.take(boundary.len() as int) =~= boundary@);
        point_in_slice(boundary, point)
    }

    /// Whether one of the three sides of `triangle` is `edge`.
    fn triangle_contains_edge(&self, triangle: &Triangle, edge: &Edge) -> (r: bool)
        ensures
            r == has_side(triangle.corners(), edge.key()),
    {
        let mut i: usize = 0;
        while i < 3
            invariant
                i <= 3,
                forall|k: int| 0 <= k < i ==> side(triangle.corners(), k) != edge.key(),
            decreases 3 - i,
        {
            let triangle_edge = Edge::new(triangle.vertices[i], triangle.vertices[(i + 1) % 3]);
            assert(triangle_edge.key() == side(triangle.corners(), i as int));
            if triangle_edge.same_as(edge) {
                return true;
            }
            i += 1;
        }
        false
    }

    /// Inserts point `point_index` into the triangulation: removes every
    /// triangle whose circumcircle strictly contains the point and joins the
    /// point to each edge of the cavity they leave.  A point that no
    /// circumcircle contains changes nothing.
    pub fn bowyer_watson_add_point(&mut self, point_index: usize) -> (r: Result<(), MeshError>)
        requires
            old(self).wf(),
            point_index < old(self).points.len(),
        ensures
            r is Ok,
            final(self).points@ == old(self).points@,
            final(self).super_triangle_indices == old(self).super_triangle_indices,
            corners_of(final(self).triangles@) == insertion(
                old(self).points@,
                corners_of(old(self).triangles@),
                point_index,
            ),
            final(self).wf(),
            old(self).non_inverted() ==> final(self).non_inverted(),
            forall|i: int|
                #![trigger final(self).triangles[i]]
                0 <= i < final(self).triangles.len()
                    ==> !final(self).triangles[i].circumcircle.strictly_contains(
                    old(self).points[point_index as int],
                ),
    {
        let point = self.points[point_index];
        let n = self.triangles.len();
        let ghost points = self.points@;
        let ghost tris = corners_of(self.triangles@);
        let bad = self.find_bad_triangles(&point);
        let polygon_edges = self.find_cavity_edges(&bad, Ghost(point));
        let mut kept: Vec<Triangle> = Vec::new();
        let mut i: usize = 0;
        while i < n
            invariant
                i <= n,
                n == self.triangles.len(),
                bad.len() == n,
                points == self.points@,
                tris == corners_of(self.triangles@),
                self.wf(),
                forall|j: int| 0 <= j < n ==> bad[j] == is_bad(points, #[trigger] tris[j], point),
                corners_of(kept@) == survivors(points, tris, point, i as int),
                forall|j: int| 0 <= j < kept.len() ==> (#[trigger] kept[j]).wf(points),
                forall|j: int|
                    0 <= j < kept.len() ==> !(#[trigger] kept[j]).circumcircle.strictly_contains(
                        point,
                    ),
                old(self).non_inverted() ==> forall|j: int|
                    0 <= j < kept.len() ==> (#[trigger] kept[j]).jacobian_spec(points) >= 0,
                *old(self) == *self,
            decreases n - i,
        {
            assert(tris[i as int] == self.triangles[i as int].corners());
            if !bad[i] {
                let t = self.triangles[i];
                assert(t.wf(points));
                kept.push(t);
                assert(corners_of(kept@) =~= survivors(points, tris, point, i as int).push(
                    tris[i as int],
                ));
            }
            i += 1;
        }
        let ghost edges = cavity_edges(points, tris, point, 3 * n);
        let ghost base = corners_of(kept@);
        let mut e: usize = 0;
        while e < polygon_edges.len()
            invariant
                e <= polygon_edges.len(),
                points == self.points@,
                all_within(points, EXTENT as int),
                point_index < points.len(),
                point == points[point_index as int],
                polygon_edges@.len() == edges.len(),
                forall|j: int|
                    0 <= j < edges.len() ==> (#[trigger] polygon_edges[j]).key() == edges[j],
                forall|j: int|
                    0 <= j < edges.len() ==> (#[trigger] polygon_edges[j]).key().0 < points.len()
                        && polygon_edges[j].key().1 < points.len(),
                corners_of(kept@) == base + edges.take(e as int).map_values(
                    |x: (usize, usize)| oriented(points, x, point_index),
                ),
                forall|j: int| 0 <= j < kept.len() ==> (#[trigger] kept[j]).wf(points),
                forall|j: int|
                    0 <= j < kept.len() ==> !(#[trigger] kept[j]).circumcircle.strictly_contains(
                        point,
                    ),
                old(self).non_inverted() ==> forall|j: int|
                    0 <= j < kept.len() ==> (#[trigger] kept[j]).jacobian_spec(points) >= 0,
                *old(self) == *self,
            decreases polygon_edges.len() - e,
        {
            let edge = polygon_edges[e];
            assert(edge.key() == edges[e as int]);
            let vertices = [edge.vertices[0], edge.vertices[1], point_index];
            let new_triangle = Triangle::new(vertices, self.points.as_slice());
            let placed = if new_triangle.jacobian(self.points.as_slice()) > 0 {
                new_triangle
            } else {
                let corrected_vertices = [edge.vertices[1], edge.vertices[0], point_index];
                proof {
                    lemma_cross_swap(
                        points[edge.vertices[0] as int],
                        points[edge.vertices[1] as int],
                        point,
                    );
                }
                Triangle::new(corrected_vertices, self.points.as_slice())
            };
            proof {
                lemma_corners_on_circumcircle(placed, points);
                assert(placed.corners() == oriented(points, edges[e as int], point_index));
                let f = |x: (usize, usize)| oriented(points, x, point_index);
                assert(edges.take(e as int + 1).map_values(f) =~= edges.take(e as int).map_values(
                    f,
                ).push(f(edges[e as int])));
            }
            let ghost before = corners_of(kept@);
            kept.push(placed);
            assert(corners_of(kept@) =~= before.push(placed.corners()));
            e += 1;
        }
        assert(edges.take(edges.len() as int) =~= edges);
        self.triangles = kept;
        Ok(())
    }

    /// Marks, for each triangle, whether its circumcircle strictly contains
    /// `point`.
    fn find_bad_triangles(&self, point: &Point) -> (bad: Vec<bool>)
        requires
            self.wf(),
            point.within(EXTENT as int),
        ensures
            bad.len() == self.triangles.len(),
            forall|j: int|
                0 <= j < bad.len() ==> bad[j] == is_bad(
                    self.points@,
                    #[trigger] corners_of(self.triangles@)[j],
                    *point,
                ),
    {
        let mut bad: Vec<bool> = Vec::new();
        let mut i: usize = 0;
        while i < self.triangles.len()
            invariant
                i <= self.triangles.len(),
                bad.len() == i,
                self.wf(),
                point.within(EXTENT as int),
                forall|j: int|
                    0 <= j < i ==> bad[j] == is_bad(
                        self.points@,
                        #[trigger] corners_of(self.triangles@)[j],
                        *point,
                    ),
            decreases self.triangles.len() - i,
        {
            let t = &self.triangles[i];
            proof {
                assert(t.wf(self.points@));
                lemma_circum_bounds(
                    self.points@[t.vertices[0] as int],
                    self.points@[t.vertices[1] as int],
                    self.points@[t.vertices[2] as int],
                );
            }
            bad.push(t.contains_point_in_circumcircle(point));
            i += 1;
        }
        bad
    }

    /// Whether a bad triangle other than triangle `i` has the edge `edge`.
    fn edge_is_shared(&self, bad: &Vec<bool>, i: usize, edge: &Edge, Ghost(point): Ghost<
        Point,
    >) -> (r: bool)
        requires
            bad.len() == self.triangles.len(),
            forall|j: int|
                0 <= j < bad.len() ==> bad[j] == is_bad(
                    self.points@,
                    #[trigger] corners_of(self.triangles@)[j],
                    point,
                ),
        ensures
            r == shared_with_other_bad(
                self.points@,
                corners_of(self.triangles@),
                point,
                i as int,
                edge.key(),
            ),
    {
        let ghost tris = corners_of(self.triangles@);
        let mut j: usize = 0;
        while j < self.triangles.len()
            invariant
                j <= self.triangles.len(),
                bad.len() == self.triangles.len(),
                tris == corners_of(self.triangles@),
                forall|k: int|
                    0 <= k < bad.len() ==> bad[k] == is_bad(self.points@, #[trigger] tris[k], point),
                forall|k: int|
                    0 <= k < j ==> !(k != i && is_bad(self.points@, #[trigger] tris[k], point)
                        && has_side(tris[k], edge.key())),
            decreases self.triangles.len() - j,
        {
            if j != i && bad[j] {
                assert(tris[j as int] == self.triangles[j as int].corners());
                if self.triangle_contains_edge(&self.triangles[j], edge) {
                    return true;
                }
            }
            j += 1;
        }
        false
    }

    /// Collects the boundary of the cavity: each side of a bad triangle that
    /// no other bad triangle shares, in the order of the triangles and of
    /// their sides.
    fn find_cavity_edges(&self, bad: &Vec<bool>, Ghost(point): Ghost<Point>) -> (edges: Vec<Edge>)
        requires
            self.wf(),
            bad.len() == self.triangles.len(),
            forall|j: int|
                0 <= j < bad.len() ==> bad[j] == is_bad(
                    self.points@,
                    #[trigger] corners_of(self.triangles@)[j],
                    point,
                ),
        ensures
            edges.len() == cavity_edges(
                self.points@,
                corners_of(self.triangles@),
                point,
                3 * self.triangles.len(),
            ).len(),
            forall|j: int|
                0 <= j < edges.len() ==> (#[trigger] edges[j]).key() == cavity_edges(
                    self.points@,
                    corners_of(self.triangles@),
                    point,
                    3 * self.triangles.len(),
                )[j],
            forall|j: int|
                0 <= j < edges.len() ==> (#[trigger] edges[j]).key().0 < self.points.len()
                    && edges[j].key().1 < self.points.len(),
    {
        let ghost points = self.points@;
        let ghost tris = corners_of(self.triangles@);
        let n = self.triangles.len();
        let mut edges: Vec<Edge> = Vec::new();
        let mut i: usize = 0;
        while i < n
            invariant
                i <= n,
                n == self.triangles.len(),
                self.wf(),
                bad.len() == n,
                points == self.points@,
                tris == corners_of(self.triangles@),
                forall|j: int| 0 <= j < n ==> bad[j] == is_bad(points, #[trigger] tris[j], point),
                edges.len() == cavity_edges(points, tris, point, 3 * i).len(),
                forall|j: int|
                    0 <= j < edges.len() ==> (#[trigger] edges[j]).key() == cavity_edges(
                        points,
                        tris,
                        point,
                        3 * i,
                    )[j],
                forall|j: int|
                    0 <= j < edges.len() ==> (#[trigger] edges[j]).key().0 < points.len()
                        && edges[j].key().1 < points.len(),
            decreases n - i,
        {
            assert(tris[i as int] == self.triangles[i as int].corners());
            if bad[i] {
                let triangle = &self.triangles[i];
                assert(triangle.wf(points));
                let mut k: usize = 0;
                while k < 3
                    invariant
                        k <= 3,
                        i < n,
                        n == self.triangles.len(),
                        bad.len() == n,
                        points == self.points@,
                        tris == corners_of(self.triangles@),
                        triangle == &self.triangles[i as int],
                        triangle.wf(points),
                        tris[i as int] == triangle.corners(),
                        is_bad(points, tris[i as int], point),
                        forall|j: int|
                            0 <= j < n ==> bad[j] == is_bad(points, #[trigger] tris[j], point),
                        edges.len() == cavity_edges(points, tris, point, 3 * i + k).len(),
                        forall|j: int|
                            0 <= j < edges.len() ==> (#[trigger] edges[j]).key() == cavity_edges(
                                points,
                                tris,
                                point,
                                3 * i + k,
                            )[j],
                        forall|j: int|
                            0 <= j < edges.len() ==> (#[trigger] edges[j]).key().0 < points.len()
                                && edges[j].key().1 < points.len(),
                    decreases 3 - k,
                {
                    let edge = Edge::new(triangle.vertices[k], triangle.vertices[(k + 1) % 3]);
                    assert(edge.key() == side(tris[i as int], k as int));
                    let is_shared = self.edge_is_shared(bad, i, &edge, Ghost(point));
                    assert((3 * i + k + 1 - 1) / 3 == i && (3 * i + k + 1 - 1) % 3 == k);
                    if !is_shared {
                        edges.push(edge);
                    }
                    k += 1;
                }
            } else {
                assert((3 * i + 1 - 1) / 3 == i && (3 * i + 2 - 1) / 3 == i && (3 * i + 3 - 1) / 3
                    == i);
                assert(cavity_edges(points, tris, point, 3 * i + 1) == cavity_edges(
                    points,
                    tris,
                    point,
                    3 * i,
                ));
                assert(cavity_edges(points, tris, point, 3 * i + 2) == cavity_edges(
                    points,
                    tris,
                    point,
                    3 * i + 1,
                ));
                assert(cavity_edges(points, tris, point, 3 * i + 3) == cavity_edges(
                    points,
                    tris,
                    point,
                    3 * i + 2,
                ));
            }
            i += 1;
        }
        edges
    }

    /// Inserts point `point_index` into the triangulation.
    pub fn add_point(&mut self, point_index: usize) -> (r: Result<(), MeshError>)
        requires
            old(self).wf(),
            point_index < old(self).points.len(),
        ensures
            r is Ok,
            final(self).points@ == old(self).points@,
            final(self).super_triangle_indices == old(self).super_triangle_indices,
            corners_of(final(self).triangles@) == insertion(
                old(self).points@,
                corners_of(old(self).triangles@),
                point_index,
            ),
            final(self).wf(),
            old(self).non_inverted() ==> final(self).non_inverted(),
    {
        self.bowyer_watson_add_point(point_index)
    }
}

/// The triangulation that comes out of a bootstrapped state: every point
/// but the last three inserted in order, then the triangles with a corner
/// among the bootstrap indices `s` removed.
pub open spec fn triangulation(points: Seq<Point>, tris: Seq<Corners>, s: Corners) -> Seq<Corners> {
    let all = insertions(points, tris, (points.len() - 3) as nat);
    without(all, s, all.len() as int)
}

/// Reversing the order of three points negates their orientation.
pub proof fn lemma_cross_reverse(a: Point, b: Point, c: Point)
    ensures
        cross(c, b, a) == -cross(a, b, c),
{
    assert(cross(c, b, a) == -cross(a, b, c)) by (nonlinear_arith)
        requires
            cross(c, b, a) == (b.x - c.x) * (a.y - c.y) - (a.x - c.x) * (b.y - c.y),
            cross(a, b, c) == (b.x - a.x) * (c.y - a.y) - (c.x - a.x) * (b.y - a.y),
    ;
}

/// A copy of a point list.
pub fn copy_points(points: &Vec<Point>) -> (copy: Vec<Point>)
    ensures
        copy@ == points@,
{
    let mut copy: Vec<Point> = Vec::new();
    let mut i: usize = 0;
    while i < points.len()
        invariant
            i <= points.len(),
            copy@ == points@.take(i as int),
        decreases points.len() - i,
    {
        copy.push(points[i]);
        assert(copy@ =~= points@.take(i as int + 1));
        i += 1;
    }
    assert(points@.take(points.len() as int) =~= points@);
    copy
}

/// A copy of a triangle list.
pub fn copy_triangles(triangles: &Vec<Triangle>) -> (copy: Vec<Triangle>)
    ensures
        copy@ == triangles@,
{
    let mut copy: Vec<Triangle> = Vec::new();
    let mut i: usize = 0;
    while i < triangles.len()
        invariant
            i <= triangles.len(),
            copy@ == triangles@.take(i as int),
        decreases triangles.len() - i,
    {
        copy.push(triangles[i]);
        assert(copy@ =~= triangles@.take(i as int + 1));
        i += 1;
    }
    assert(triangles@.take(triangles.len() as int) =~= triangles@);
    copy
}

/// The bootstrap indices for `n` given points followed by the three
/// bootstrap corners: in the order of the corners, or reversed if that order
/// turns clockwise.
pub open spec fn bootstrap_corners(all: Seq<Point>, n: int) -> Corners {
    if cross(all[n], all[n + 1], all[n + 2]) < 0 {
        ((n + 2) as usize, (n + 1) as usize, n as usize)
    } else {
        (n as usize, (n + 1) as usize, (n + 2) as usize)
    }
}

/// The triangles of the triangulation of `points`: the bootstrap triangle
/// around their bounds, every point inserted in order, and the triangles
/// that touch a bootstrap corner removed.
pub open spec fn delaunay_corners(points: Seq<Point>) -> Seq<Corners> {
    let all = points + super_triangle_of(bounding_box(points));
    let s = bootstrap_corners(all, points.len() as int);
    triangulation(all, seq![s], s)
}

/// Triangulates a point list from scratch.
pub fn triangulate_points(points: Vec<Point>) -> (mesh: Mesh)
    requires
        all_within(points@, COORD_LIMIT as int),
    ensures
        mesh.vertices@ == points@,
        mesh.tri_corners() == delaunay_corners(points@),
        mesh.triangles_in_bounds(),
        mesh.triangles_denormalized(),
        mesh.quads is None,
        mesh.quad_indices is None,
        forall|i: int|
            0 <= i < mesh.tri_corners().len() ==> corners_jacobian(
                #[trigger] mesh.tri_corners()[i],
                mesh.vertices@,
            ) >= 0,
{
    let ghost given = points@;
    let mut triangulator = DelaunayTriangulator::new(points);
    proof {
        let all = triangulator.points@;
        assert(all.take(given.len() as int) =~= given);
        assert(corners_of(triangulator.triangles@) =~= seq![triangulator.super_corners()]);
    }
    triangulator.triangulate().unwrap()
}

/// The rows of a square lattice from height `y` up to `max_y`, `step` apart,
/// each row running from `min_x` to `max_x`: the lattice points inside the
/// polygon.
pub open spec fn lattice_rows(
    polygon: Seq<Point>,
    y: int,
    min_x: int,
    max_x: int,
    max_y: int,
    step: int,
) -> Seq<Point>
    decreases
        if y <= max_y {
            max_y - y + 1
        } else {
            0
        },
{
    if y > max_y || step < 1 {
        Seq::empty()
    } else {
        grid_row(polygon, min_x, y, step, max_x) + lattice_rows(
            polygon,
            y + step,
            min_x,
            max_x,
            max_y,
            step,
        )
    }
}

/// The points of the square lattice with the given spacing that lie strictly
/// between the bounds of the polygon and inside it; the lattice starts one
/// spacing in from the lower bounds.
pub open spec fn interior_lattice(polygon: Seq<Point>, spacing: int) -> Seq<Point> {
    let b = bounding_box(polygon);
    lattice_rows(polygon, b.2 + spacing, b.0 + spacing, b.1 - 1, b.3 - 1, spacing)
}

/// Lays a square lattice over the bounds of the polygon and keeps the points
/// that lie inside the polygon.
pub fn generate_interior_lattice(polygon: &[Point], spacing: u64) -> (points: Vec<Point>)
    requires
        all_within(polygon@, COORD_LIMIT as int),
        spacing >= 1,
    ensures
        points@ == interior_lattice(polygon@, spacing as int),
        all_within(points@, COORD_LIMIT as int),
{
    let bounds = DelaunayTriangulator::calculate_bounds(polygon);
    proof {
        lemma_bounding_box(polygon@);
    }
    let (min_x, max_x, min_y, max_y) = bounds;
    let step: i128 = spacing as i128;
    let first_x: i128 = min_x as i128 + step;
    let ghost whole = lattice_rows(
        polygon@,
        min_y + step,
        first_x as int,
        max_x - 1,
        max_y - 1,
        step as int,
    );
    let mut points: Vec<Point> = Vec::new();
    let mut y: i128 = min_y as i128 + step;
    while y < max_y as i128
        invariant
            -COORD_LIMIT <= min_x <= max_x <= COORD_LIMIT,
            -COORD_LIMIT <= min_y <= max_y <= COORD_LIMIT,
            all_within(polygon@, COORD_LIMIT as int),
            1 <= step <= u64::MAX,
            first_x == min_x + step,
            min_y <= y,
            all_within(points@, COORD_LIMIT as int),
            points@ + lattice_rows(
                polygon@,
                y as int,
                first_x as int,
                max_x - 1,
                max_y - 1,
                step as int,
            ) == whole,
        decreases
            if y < max_y {
                max_y - y
            } else {
                0
            },
    {
        let ghost above = lattice_rows(
            polygon@,
            y + step,
            first_x as int,
            max_x - 1,
            max_y - 1,
            step as int,
        );
        let ghost row_start = points@;
        let ghost whole_row = grid_row(polygon@, first_x as int, y as int, step as int, max_x - 1);
        let mut x: i128 = first_x;
        while x < max_x as i128
            invariant
                -COORD_LIMIT <= min_x <= max_x <= COORD_LIMIT,
                -COORD_LIMIT <= min_y <= y < max_y <= COORD_LIMIT,
                all_within(polygon@, COORD_LIMIT as int),
                1 <= step <= u64::MAX,
                min_x <= x,
                all_within(points@, COORD_LIMIT as int),
                points@ + grid_row(polygon@, x as int, y as int, step as int, max_x - 1)
                    == row_start + whole_row,
            decreases
                if x < max_x {
                    max_x - x
                } else {
                    0
                },
        {
            let point = Point::new(x as i64, y as i64);
            let ghost sofar = points@;
            let ghost rest = grid_row(polygon@, x + step, y as int, step as int, max_x - 1);
            assert forall|i: int| 0 <= i < polygon@.len() implies (#[trigger] polygon@[i]).within(
                EXTENT as int,
            ) by {
                assert(polygon@[i].within(COORD_LIMIT as int));
            }
            if point_in_slice(polygon, &point) {
                points.push(point);
                assert(points@ + rest =~= sofar + (seq![point] + rest));
            }
            x = x + step;
        }
        assert(points@ =~= row_start + whole_row);
        assert(points@ + above =~= row_start + (whole_row + above));
        y = y + step;
    }
    assert(points@ =~= whole);
    points
}

/// The first `k` probes on the horizontal line through the centre of the
/// bounds that lie inside the boundary: the centre, then the points a
/// quarter of the width to its left, on it, and to its right.
pub open spec fn strategic_points(boundary: Seq<Point>, k: int) -> Seq<Point>
    decreases k,
{
    if k <= 0 {
        Seq::empty()
    } else {
        let b = bounding_box(boundary);
        let center_x = trunc_div(b.0 + b.1, 2);
        let center_y = trunc_div(b.2 + b.3, 2);
        let offset = trunc_div(b.1 - b.0, 4);
        let probe = Point {
            x: (center_x + if k == 2 {
                -offset
            } else if k == 4 {
                offset
            } else {
                0
            }) as i64,
            y: center_y as i64,
        };
        let before = strategic_points(boundary, k - 1);
        if inside_polygon(boundary, probe) {
            before.push(probe)
        } else {
            before
        }
    }
}

/// The points that adaptive triangulation starts from: the coarse boundary
/// samples, then the four probes that lie inside the boundary.
pub open spec fn adaptive_seeds(boundary: Seq<Point>, target_area: u64) -> Seq<Point> {
    boundary_samples(boundary, coarse_edge_for(target_area), boundary.len() as int)
        + strategic_points(boundary, 4)
}

/// The centroids, among the first `n` triangles, of those whose area exceeds
/// one and a half times the target area and whose centroid lies inside the
/// boundary.
pub open spec fn large_centroids(
    tris: Seq<Corners>,
    vertices: Seq<Point>,
    boundary: Seq<Point>,
    target_area: u64,
    n: int,
) -> Seq<Point>
    decreases n,
{
    if n <= 0 {
        Seq::empty()
    } else {
        let before = large_centroids(tris, vertices, boundary, target_area, n - 1);
        if 2 * vstd::math::abs(corners_jacobian(tris[n - 1], vertices)) > 3 * target_area
            && inside_polygon(boundary, centroid_of(tris[n - 1], vertices)) {
            before.push(centroid_of(tris[n - 1], vertices))
        } else {
            before
        }
    }
}

/// The points after at most `iterations` rounds of adaptive refinement: a
/// round triangulates the points and adds the centroids of the large
/// triangles, and the first round that adds none ends it.
pub open spec fn adaptive_points(
    points: Seq<Point>,
    boundary: Seq<Point>,
    target_area: u64,
    iterations: nat,
) -> Seq<Point>
    decreases iterations,
{
    if iterations == 0 {
        points
    } else {
        let tris = delaunay_corners(points);
        let added = large_centroids(tris, points, boundary, target_area, tris.len() as int);
        if added.len() == 0 {
            points
        } else {
            adaptive_points(points + added, boundary, target_area, (iterations - 1) as nat)
        }
    }
}

/// The centroids of the large triangles of a mesh that lie inside the
/// boundary.
fn collect_large_centroids(mesh: &Mesh, boundary: &[Point], target_area: u64) -> (added: Vec<Point>)
    requires
        mesh.triangles_in_bounds(),
        all_within(mesh.vertices@, COORD_LIMIT as int),
        all_within(boundary@, COORD_LIMIT as int),
    ensures
        added@ == large_centroids(
            mesh.tri_corners(),
            mesh.vertices@,
            boundary@,
            target_area,
            mesh.triangle_indices.len() as int,
        ),
        all_within(added@, COORD_LIMIT as int),
{
    let mut added: Vec<Point> = Vec::new();
    let mut i: usize = 0;
    while i < mesh.triangle_indices.len()
        invariant
            i <= mesh.triangle_indices.len(),
            mesh.triangles_in_bounds(),
            all_within(mesh.vertices@, COORD_LIMIT as int),
            all_within(boundary@, COORD_LIMIT as int),
            added@ == large_centroids(
                mesh.tri_corners(),
                mesh.vertices@,
                boundary@,
                target_area,
                i as int,
            ),
            all_within(added@, COORD_LIMIT as int),
        decreases mesh.triangle_indices.len() - i,
    {
        let triangle = mesh.triangle_indices[i];
        assert(corners_in_bounds(mesh.tri_corners()[i as int], mesh.vertices.len() as int));
        assert(mesh.tri_corners()[i as int] == (triangle[0], triangle[1], triangle[2]));
        let p1 = &mesh.vertices[triangle[0]];
        let p2 = &mesh.vertices[triangle[1]];
        let p3 = &mesh.vertices[triangle[2]];
        assert(p1.within(COORD_LIMIT as int) && p2.within(COORD_LIMIT as int) && p3.within(
            COORD_LIMIT as int,
        ));
        let triangle_obj = Triangle::new(triangle, mesh.vertices.as_slice());
        let area = triangle_obj.area(mesh.vertices.as_slice());
        if 2 * area > 3 * (target_area as u128) {
            let c = centroid(p1, p2, p3);
            assert forall|k: int| 0 <= k < boundary@.len() implies (#[trigger] boundary@[k]).within(
                EXTENT as int,
            ) by {
                assert(boundary@[k].within(COORD_LIMIT as int));
            }
            if point_in_slice(boundary, &c) {
                added.push(c);
            }
        }
        i += 1;
    }
    added
}

impl DelaunayTriangulator {
    /// Triangulates the inside of a boundary adaptively: starts from a
    /// coarse sampling of the boundary and a few probes inside it, and for
    /// at most `max_iterations` rounds adds the centroid of every triangle
    /// that is larger than one and a half times the target area and
    /// triangulates again.
    pub fn generate_adaptive_triangulation(
        boundary: &[Point],
        target_area: u64,
        max_iterations: usize,
    ) -> (r: Result<Vec<Triangle>, MeshError>)
        requires
            all_within(boundary@, COORD_LIMIT as int),
        ensures
            r is Ok,
            corners_of(r->Ok_0@) == delaunay_corners(
                adaptive_points(
                    adaptive_seeds(boundary@, target_area),
                    boundary@,
                    target_area,
                    max_iterations as nat,
                ),
            ),
            forall|i: int|
                0 <= i < r->Ok_0.len() ==> (#[trigger] r->Ok_0[i]).wf(
                    adaptive_points(
                        adaptive_seeds(boundary@, target_area),
                        boundary@,
                        target_area,
                        max_iterations as nat,
                    ),
                ),
    {
        let coarse = coarse_edge_length(target_area);
        let mut points = Self::sample_boundary_points(boundary, coarse);
        let (min_x, max_x, min_y, max_y) = Self::calculate_bounds(boundary);
        proof {
            lemma_bounding_box(boundary@);
            assert forall|k: int| 0 <= k < boundary@.len() implies (#[trigger] boundary@[k]).within(
                EXTENT as int,
            ) by {
                assert(boundary@[k].within(COORD_LIMIT as int));
            }
        }
        let center_x: i64 = (min_x + max_x) / 2;
        let center_y: i64 = (min_y + max_y) / 2;
        let offset: i64 = (max_x - min_x) / 4;
        let ghost samples = points@;
        let center = Point::new(center_x, center_y);
        if Self::is_point_inside_boundary_static(&center, boundary) {
            points.push(center);
        }
        assert(points@ =~= samples + strategic_points(boundary@, 1)) by {
            assert(strategic_points(boundary@, 0) =~= Seq::<Point>::empty());
        }
        let mut i: i64 = 1;
        while i < 4
            invariant
                1 <= i <= 4,
                all_within(boundary@, COORD_LIMIT as int),
                all_within(boundary@, EXTENT as int),
                all_within(points@, COORD_LIMIT as int),
                (min_x, max_x, min_y, max_y) == bounding_box(boundary@),
                -COORD_LIMIT <= min_x <= max_x <= COORD_LIMIT,
                -COORD_LIMIT <= min_y <= max_y <= COORD_LIMIT,
                center_x == trunc_div(min_x + max_x, 2),
                center_y == trunc_div(min_y + max_y, 2),
                offset == trunc_div(max_x - min_x, 4),
                points@ == samples + strategic_points(boundary@, i as int),
            decreases 4 - i,
        {
            let shift: i64 = if i == 1 {
                -offset
            } else if i == 3 {
                offset
            } else {
                0
            };
            let test_point = Point::new(center_x + shift, center_y);
            let ghost before = points@;
            if Self::is_point_inside_boundary_static(&test_point, boundary) {
                points.push(test_point);
            }
            assert(points@ =~= samples + strategic_points(boundary@, i as int + 1));
            i += 1;
        }
        let ghost seeds = points@;
        let ghost goal = adaptive_points(seeds, boundary@, target_area, max_iterations as nat);
        let mut mesh = triangulate_points(copy_points(&points));
        let mut iteration: usize = 0;
        let mut done = false;
        while iteration < max_iterations && !done
            invariant
                iteration <= max_iterations,
                all_within(boundary@, COORD_LIMIT as int),
                all_within(points@, COORD_LIMIT as int),
                mesh.vertices@ == points@,
                mesh.tri_corners() == delaunay_corners(points@),
                mesh.triangles_in_bounds(),
                goal == adaptive_points(
                    points@,
                    boundary@,
                    target_area,
                    if done {
                        0nat
                    } else {
                        (max_iterations - iteration) as nat
                    },
                ),
            decreases max_iterations - iteration + if done { 0int } else { 1int },
        {
            let new_points = collect_large_centroids(&mesh, boundary, target_area);
            if new_points.len() == 0 {
                done = true;
            } else {
                let ghost before = points@;
                let mut k: usize = 0;
                while k < new_points.len()
                    invariant
                        k <= new_points.len(),
                        all_within(new_points@, COORD_LIMIT as int),
                        all_within(points@, COORD_LIMIT as int),
                        points@ == before + new_points@.take(k as int),
                    decreases new_points.len() - k,
                {
                    points.push(new_points[k]);
                    assert(points@ =~= before + new_points@.take(k as int + 1));
                    k += 1;
                }
                assert(new_points@.take(new_points.len() as int) =~= new_points@);
                mesh = triangulate_points(copy_points(&points));
                iteration += 1;
            }
        }
        proof {
            assert forall|k: int| 0 <= k < mesh.vertices@.len() implies (
            #[trigger] mesh.vertices@[k]).within(EXTENT as int) by {
                assert(points@[k].within(COORD_LIMIT as int));
            }
        }
        let triangles = triangles_from(&mesh);
        Ok(triangles)
    }
}

/// Builds the triangles of a mesh anew from its vertices and index triples.
pub fn triangles_from(mesh: &Mesh) -> (triangles: Vec<Triangle>)
    requires
        mesh.triangles_in_bounds(),
        all_within(mesh.vertices@, EXTENT as int),
    ensures
        corners_of(triangles@) == mesh.tri_corners(),
        forall|i: int| 0 <= i < triangles.len() ==> (#[trigger] triangles[i]).wf(mesh.vertices@),
{
    let mut triangles: Vec<Triangle> = Vec::new();
    let mut i: usize = 0;
    while i < mesh.triangle_indices.len()
        invariant
            i <= mesh.triangle_indices.len(),
            mesh.triangles_in_bounds(),
            all_within(mesh.vertices@, EXTENT as int),
            triangles.len() == i,
            forall|k: int|
                0 <= k < i ==> (#[trigger] triangles[k]).corners() == mesh.tri_corners()[k],
            forall|k: int| 0 <= k < i ==> (#[trigger] triangles[k]).wf(mesh.vertices@),
        decreases mesh.triangle_indices.len() - i,
    {
        let vertices = mesh.triangle_indices[i];
        assert(corners_in_bounds(mesh.tri_corners()[i as int], mesh.vertices.len() as int));
        assert(mesh.tri_corners()[i as int] == (vertices[0], vertices[1], vertices[2]));
        triangles.push(Triangle::new(vertices, mesh.vertices.as_slice()));
        i += 1;
    }
    assert(corners_of(triangles@) =~= mesh.tri_corners());
    triangles
}

/// The bootstrap triangle does its work: unless all the points coincide,
/// each of them lies strictly inside the circumcircle of the bootstrap
/// triangle, so that the first insertion opens it.
pub proof fn lemma_bootstrap_contains_inputs(points: Seq<Point>, i: int)
    requires
        all_within(points, COORD_LIMIT as int),
        0 <= i < points.len(),
        points.len() + 3 <= usize::MAX,
        bounding_box(points).0 < bounding_box(points).1 || bounding_box(points).2 < bounding_box(
            points,
        ).3,
    ensures
        corners_circle(
            bootstrap_corners(
                points + super_triangle_of(bounding_box(points)),
                points.len() as int,
            ),
            points + super_triangle_of(bounding_box(points)),
        ).strictly_contains(points[i]),
{
    let b = bounding_box(points);
    let all = points + super_triangle_of(b);
    let n = points.len() as int;
    lemma_bounding_box(points);
    let dx = b.1 - b.0;
    let dy = b.3 - b.2;
    let d = if dx >= dy {
        dx
    } else {
        dy
    };
    let mid_x = trunc_div(b.0 + b.1, 2);
    let mid_y = trunc_div(b.2 + b.3, 2);
    let left = all[n];
    let top = all[n + 1];
    let right = all[n + 2];
    assert(left == Point { x: (mid_x - 20 * d) as i64, y: (mid_y - d) as i64 });
    assert(top == Point { x: mid_x as i64, y: (mid_y + 20 * d) as i64 });
    assert(right == Point { x: (mid_x + 20 * d) as i64, y: (mid_y - d) as i64 });
    let p = points[i];
    assert(p.within(COORD_LIMIT as int));
    let u = p.x - mid_x;
    let v = p.y - mid_y;
    assert(-d <= u <= d && -d <= v <= d);
    let d2 = d * d;
    let d3 = d * d2;
    assert(d2 > 0 && d3 > 0) by (nonlinear_arith)
        requires
            d > 0,
            d2 == d * d,
            d3 == d * d2,
    ;
    // the corners in the order given turn clockwise
    assert(cross(left, top, right) == -840 * d2) by (nonlinear_arith)
        requires
            cross(left, top, right) == (20 * d) * 0 - (40 * d) * (21 * d),
            d2 == d * d,
    ;
    let s = bootstrap_corners(all, n);
    assert(s == ((n + 2) as usize, (n + 1) as usize, n as usize));
    assert(left.within(EXTENT as int) && top.within(EXTENT as int) && right.within(EXTENT as int));
    lemma_circum_bounds(right, top, left);
    let circle = corners_circle(s, all);
    assert(circle == crate::elements::Circumcircle::of(right, top, left));
    let bx = -20 * d;
    let by = 21 * d;
    let cx = -40 * d;
    let cy = 0int;
    let b2 = bx * bx + by * by;
    let c2 = cx * cx + cy * cy;
    assert(b2 == 841 * d2 && c2 == 1600 * d2) by (nonlinear_arith)
        requires
            bx == -20 * d,
            by == 21 * d,
            cx == -40 * d,
            cy == 0,
            b2 == bx * bx + by * by,
            c2 == cx * cx + cy * cy,
            d2 == d * d,
    ;
    let den = 2 * (bx * cy - cx * by);
    assert(den == 1680 * d2) by (nonlinear_arith)
        requires
            den == 2 * (bx * cy - cx * by),
            bx == -20 * d,
            by == 21 * d,
            cx == -40 * d,
            cy == 0,
            d2 == d * d,
    ;
    let nx = b2 * cy - c2 * by;
    let ny = c2 * bx - b2 * cx;
    assert(nx == -33600 * d3 && ny == 1640 * d3) by (nonlinear_arith)
        requires
            nx == b2 * cy - c2 * by,
            ny == c2 * bx - b2 * cx,
            b2 == 841 * d2,
            c2 == 1600 * d2,
            bx == -20 * d,
            by == 21 * d,
            cx == -40 * d,
            cy == 0,
            d3 == d * d2,
    ;
    assert(circle.den as int == den && circle.num_x as int == nx && circle.num_y as int == ny);
    let px = p.x - right.x;
    let py = p.y - right.y;
    assert(px == u - 20 * d && py == v + d);
    lemma_excess_factors(den, nx, ny, px, py);
    let q = den * (px * px + py * py) - 2 * (px * nx + py * ny);
    let uv = u * u + v * v;
    assert(uv <= 2 * d2) by (nonlinear_arith)
        requires
            -d <= u <= d,
            -d <= v <= d,
            uv == u * u + v * v,
            d2 == d * d,
    ;
    let du = d * u;
    let dv = d * v;
    let sq = uv - 40 * du + 2 * dv + 401 * d2;
    assert(px * px + py * py == sq) by (nonlinear_arith)
        requires
            px == u - 20 * d,
            py == v + d,
            uv == u * u + v * v,
            du == d * u,
            dv == d * v,
            d2 == d * d,
            sq == uv - 40 * du + 2 * dv + 401 * d2,
    ;
    let along = -33600 * du + 672000 * d2;
    assert(px * nx == d2 * along) by (nonlinear_arith)
        requires
            px == u - 20 * d,
            nx == -33600 * d3,
            d3 == d * d2,
            du == d * u,
            d2 == d * d,
            along == -33600 * du + 672000 * d2,
    ;
    let across = 1640 * dv + 1640 * d2;
    assert(py * ny == d2 * across) by (nonlinear_arith)
        requires
            py == v + d,
            ny == 1640 * d3,
            d3 == d * d2,
            dv == d * v,
            d2 == d * d,
            across == 1640 * dv + 1640 * d2,
    ;
    assert(q == d2 * (1680 * sq - 2 * along - 2 * across)) by (nonlinear_arith)
        requires
            q == den * (px * px + py * py) - 2 * (px * nx + py * ny),
            den == 1680 * d2,
            px * px + py * py == sq,
            px * nx == d2 * along,
            py * ny == d2 * across,
    ;
    assert(1680 * sq - 2 * along - 2 * across == 1680 * uv + 80 * dv - 673600 * d2);
    assert(d * v <= d2) by (nonlinear_arith)
        requires
            d > 0,
            v <= d,
            d2 == d * d,
    ;
    let inner = 1680 * uv + 80 * dv - 673600 * d2;
    assert(inner < 0);
    assert(q < 0) by (nonlinear_arith)
        requires
            q == d2 * inner,
            d2 > 0,
            inner < 0,
    ;
    assert(den * q < 0) by (nonlinear_arith)
        requires
            den == 1680 * d2,
            d2 > 0,
            q < 0,
    ;
    assert(circle.excess(p) == den * q);
}

} // verus!
