//! Points on the integer grid and the exact predicates built on them.

use vstd::prelude::*;
use crate::arith::{is_isqrt, isqrt, lemma_mul_bound, lemma_square_monotone};

verus! {

/// Largest absolute coordinate of a point handed to the library.
pub const COORD_LIMIT: i64 = 1_000_000;

/// Largest absolute coordinate of any point the library works with: an input
/// point, or a corner of the bootstrap triangle that encloses them.
pub const EXTENT: i64 = 41_000_000;

/// Largest difference between two coordinates of working points.
pub const SPAN: i128 = 82_000_000;

/// Largest absolute Jacobian of a triangle of working points.
pub const JACOBIAN_LIMIT: i128 = 13_448_000_000_000_000;

/// A point of the plane with integer grid coordinates.
#[derive(Clone, Copy, Debug, PartialEq, Eq, Structural)]
pub struct Point {
    pub x: i64,
    pub y: i64,
}

impl Point {
    /// Both coordinates lie in `[-limit, limit]`.
    pub open spec fn within(self, limit: int) -> bool {
        -limit <= self.x <= limit && -limit <= self.y <= limit
    }

    /// Squared Euclidean distance, as a mathematical integer.
    pub open spec fn dist_sq(self, other: Point) -> int {
        (self.x - other.x) * (self.x - other.x) + (self.y - other.y) * (self.y - other.y)
    }

    /// The point with the given coordinates.
    pub fn new(x: i64, y: i64) -> (p: Self)
        ensures
            p.x == x,
            p.y == y,
    {
        Self { x, y }
    }

    /// Whether both coordinates lie in `[-limit, limit]`.
    pub fn is_within(&self, limit: i64) -> (r: bool)
        requires
            0 <= limit,
        ensures
            r == self.within(limit as int),
    {
        -limit <= self.x && self.x <= limit && -limit <= self.y && self.y <= limit
    }

    /// Squared Euclidean distance between two points.
    pub fn distance_squared_to(&self, other: &Point) -> (d: u128)
        requires
            self.within(EXTENT as int),
            other.within(EXTENT as int),
        ensures
            d as int == self.dist_sq(*other),
            d <= JACOBIAN_LIMIT,
    {
        let dx: i128 = self.x as i128 - other.x as i128;
        let dy: i128 = self.y as i128 - other.y as i128;
        proof {
            lemma_mul_bound(dx as int, dx as int, 82_000_000, 82_000_000);
            lemma_mul_bound(dy as int, dy as int, 82_000_000, 82_000_000);
            assert(dx * dx >= 0) by (nonlinear_arith);
            assert(dy * dy >= 0) by (nonlinear_arith);
        }
        (dx * dx + dy * dy) as u128
    }

    /// Euclidean distance between two points, rounded down to a whole number
    /// of grid units.
    pub fn distance_to(&self, other: &Point) -> (d: u64)
        requires
            self.within(EXTENT as int),
            other.within(EXTENT as int),
        ensures
            is_isqrt(self.dist_sq(*other), d as int),
    {
        isqrt(self.distance_squared_to(other))
    }
}

/// Every point of the sequence has both coordinates in `[-limit, limit]`.
pub open spec fn all_within(points: Seq<Point>, limit: int) -> bool {
    forall|i: int| 0 <= i < points.len() ==> (#[trigger] points[i]).within(limit)
}

/// Whether every point of the vector lies within `limit`.
pub fn points_within(points: &Vec<Point>, limit: i64) -> (r: bool)
    requires
        0 <= limit,
    ensures
        r == all_within(points@, limit as int),
{
    let mut i: usize = 0;
    while i < points.len()
        invariant
            0 <= limit,
            i <= points.len(),
            forall|k: int| 0 <= k < i ==> (#[trigger] points@[k]).within(limit as int),
        decreases points.len() - i,
    {
        if !points[i].is_within(limit) {
            return false;
        }
        i += 1;
    }
    true
}

/// The index of the first of `points` that has the coordinates of `p`;
/// points are the same when their coordinates are.
pub fn find_point(points: &[Point], p: &Point) -> (found: Option<usize>)
    ensures
        match found {
            Some(i) => i < points.len() && points@[i as int] == *p && forall|k: int|
                0 <= k < i ==> points@[k] != *p,
            None => forall|k: int| 0 <= k < points.len() ==> points@[k] != *p,
        },
{
    let mut i: usize = 0;
    while i < points.len()
        invariant
            i <= points.len(),
            forall|k: int| 0 <= k < i ==> points@[k] != *p,
        decreases points.len() - i,
    {
        if points[i].x == p.x && points[i].y == p.y {
            return Some(i);
        }
        i += 1;
    }
    None
}

/// Points that lie in the input range lie in the working range.
pub proof fn lemma_input_points_are_working_points(points: Seq<Point>)
    requires
        all_within(points, COORD_LIMIT as int),
    ensures
        all_within(points, EXTENT as int),
{
    assert forall|i: int| 0 <= i < points.len() implies (#[trigger] points[i]).within(
        EXTENT as int,
    ) by {
        assert(points[i].within(COORD_LIMIT as int));
    }
}

/// Twice the signed area of the triangle `a`, `b`, `c`: positive exactly when
/// the three points turn counter-clockwise.
pub open spec fn cross(a: Point, b: Point, c: Point) -> int {
    (b.x - a.x) * (c.y - a.y) - (c.x - a.x) * (b.y - a.y)
}

/// Twice the signed area of the triangle `a`, `b`, `c`.
pub fn orientation(a: &Point, b: &Point, c: &Point) -> (j: i128)
    requires
        a.within(EXTENT as int),
        b.within(EXTENT as int),
        c.within(EXTENT as int),
    ensures
        j as int == cross(*a, *b, *c),
        -JACOBIAN_LIMIT <= j <= JACOBIAN_LIMIT,
{
    let dx21: i128 = b.x as i128 - a.x as i128;
    let dx31: i128 = c.x as i128 - a.x as i128;
    let dy21: i128 = b.y as i128 - a.y as i128;
    let dy31: i128 = c.y as i128 - a.y as i128;
    proof {
        lemma_mul_bound(dx21 as int, dy31 as int, 82_000_000, 82_000_000);
        lemma_mul_bound(dx31 as int, dy21 as int, 82_000_000, 82_000_000);
    }
    dx21 * dy31 - dx31 * dy21
}

/// Reversing two corners negates the orientation.
pub proof fn lemma_cross_swap(a: Point, b: Point, c: Point)
    ensures
        cross(b, a, c) == -cross(a, b, c),
{
    assert(cross(b, a, c) == -cross(a, b, c)) by (nonlinear_arith)
        requires
            cross(b, a, c) == (a.x - b.x) * (c.y - b.y) - (c.x - b.x) * (a.y - b.y),
            cross(a, b, c) == (b.x - a.x) * (c.y - a.y) - (c.x - a.x) * (b.y - a.y),
    ;
}

/// The centroid of three points, each coordinate rounded toward zero.
pub open spec fn centroid_spec(a: Point, b: Point, c: Point) -> Point {
    Point {
        x: trunc_div(a.x + b.x + c.x, 3) as i64,
        y: trunc_div(a.y + b.y + c.y, 3) as i64,
    }
}

/// Division rounding toward zero, as the machine does it.
pub open spec fn trunc_div(n: int, d: int) -> int
    recommends
        d > 0,
{
    if n >= 0 {
        n / d
    } else {
        -((-n) / d)
    }
}

/// The centroid of three points, each coordinate rounded toward zero.
pub fn centroid(a: &Point, b: &Point, c: &Point) -> (p: Point)
    requires
        a.within(EXTENT as int),
        b.within(EXTENT as int),
        c.within(EXTENT as int),
    ensures
        p == centroid_spec(*a, *b, *c),
        forall|limit: int|
            0 <= limit && a.within(limit) && b.within(limit) && c.within(limit) ==> p.within(limit),
{
    let sx: i64 = a.x + b.x + c.x;
    let sy: i64 = a.y + b.y + c.y;
    Point { x: sx / 3, y: sy / 3 }
}

/// Whether the edge from `pi` to `pj` is crossed by the ray that leaves `p`
/// in the direction of growing `x`: the edge straddles the height of `p`, and
/// meets that height strictly to the right of `p`.
pub open spec fn ray_crosses(pi: Point, pj: Point, p: Point) -> bool {
    let dy = pj.y - pi.y;
    let lhs = (p.x - pi.x) * dy;
    let rhs = (pj.x - pi.x) * (p.y - pi.y);
    ((pi.y > p.y) != (pj.y > p.y)) && if dy > 0 {
        lhs < rhs
    } else {
        lhs > rhs
    }
}

/// Index of the corner before corner `i` on a closed loop of `n` corners.
pub open spec fn prev_index(i: int, n: int) -> int {
    if i == 0 {
        n - 1
    } else {
        i - 1
    }
}

/// Number of the first `k` edges of the closed polygon that the ray from `p`
/// crosses; edge `i` runs from corner `i` to the corner before it.
pub open spec fn crossings(polygon: Seq<Point>, p: Point, k: int) -> int
    decreases k,
{
    if k <= 0 {
        0
    } else {
        crossings(polygon, p, k - 1) + if ray_crosses(
            polygon[k - 1],
            polygon[prev_index(k - 1, polygon.len() as int)],
            p,
        ) {
            1int
        } else {
            0int
        }
    }
}

/// Even-odd rule: `p` is inside the polygon when the ray from `p` crosses an
/// odd number of its edges.  No point is inside the empty polygon.
pub open spec fn inside_polygon(polygon: Seq<Point>, p: Point) -> bool {
    crossings(polygon, p, polygon.len() as int) % 2 == 1
}

/// Whether the ray from `p` crosses the edge from `pi` to `pj`.
pub fn edge_crossed(pi: &Point, pj: &Point, p: &Point) -> (r: bool)
    requires
        pi.within(EXTENT as int),
        pj.within(EXTENT as int),
        p.within(EXTENT as int),
    ensures
        r == ray_crosses(*pi, *pj, *p),
{
    if (pi.y > p.y) == (pj.y > p.y) {
        return false;
    }
    let dy: i128 = pj.y as i128 - pi.y as i128;
    let a: i128 = p.x as i128 - pi.x as i128;
    let b: i128 = pj.x as i128 - pi.x as i128;
    let c: i128 = p.y as i128 - pi.y as i128;
    proof {
        lemma_mul_bound(a as int, dy as int, 82_000_000, 82_000_000);
        lemma_mul_bound(b as int, c as int, 82_000_000, 82_000_000);
    }
    if dy > 0 {
        a * dy < b * c
    } else {
        a * dy > b * c
    }
}

/// Ray-casting test of `p` against the closed polygon `polygon`.
pub fn point_in_slice(polygon: &[Point], p: &Point) -> (r: bool)
    requires
        all_within(polygon@, EXTENT as int),
        p.within(EXTENT as int),
    ensures
        r == inside_polygon(polygon@, *p),
{
    let count = polygon.len();
    let mut inside = false;
    if count == 0 {
        return false;
    }
    let mut j: usize = count - 1;
    let mut i: usize = 0;
    while i < count
        invariant
            0 < count == polygon.len(),
            i <= count,
            all_within(polygon@, EXTENT as int),
            p.within(EXTENT as int),
            j == prev_index(i as int, count as int),
            inside == (crossings(polygon@, *p, i as int) % 2 == 1),
        decreases count - i,
    {
        if edge_crossed(&polygon[i], &polygon[j], p) {
            inside = !inside;
        }
        j = i;
        i += 1;
    }
    inside
}

/// Ray-casting test of `p` against the closed polygon made of the first
/// `count` points of `points`.
pub fn point_in_polygon(points: &Vec<Point>, count: usize, p: &Point) -> (r: bool)
    requires
        count <= points.len(),
        all_within(points@.take(count as int), EXTENT as int),
        p.within(EXTENT as int),
    ensures
        r == inside_polygon(points@.take(count as int), *p),
{
    let ghost polygon = points@.take(count as int);
    let mut inside = false;
    if count == 0 {
        return false;
    }
    let mut j: usize = count - 1;
    let mut i: usize = 0;
    while i < count
        invariant
            0 < count <= points.len(),
            i <= count,
            polygon == points@.take(count as int),
            all_within(polygon, EXTENT as int),
            p.within(EXTENT as int),
            j == prev_index(i as int, count as int),
            inside == (crossings(polygon, *p, i as int) % 2 == 1),
        decreases count - i,
    {
        assert(polygon[i as int] == points@[i as int]);
        assert(polygon[j as int] == points@[j as int]);
        if edge_crossed(&points[i], &points[j], p) {
            inside = !inside;
        }
        j = i;
        i += 1;
    }
    inside
}

/// `n` is the number of pieces into which an edge of squared length `d2` is
/// cut for a target length `len`: the edge length divided by the target,
/// rounded up.  It is the least `n` with `n * len` at least the edge length.
pub open spec fn is_piece_count(d2: int, len: int, n: int) -> bool {
    n >= 1 && (n * len) * (n * len) >= d2 && ((n - 1) * len) * ((n - 1) * len) < d2
}

/// The number of pieces is unique.
pub proof fn lemma_piece_count_unique(d2: int, len: int, n: int, m: int)
    requires
        len >= 1,
        is_piece_count(d2, len, n),
        is_piece_count(d2, len, m),
    ensures
        n == m,
{
    if n < m {
        assert(0 <= n * len <= (m - 1) * len) by (nonlinear_arith)
            requires
                1 <= n <= m - 1,
                len >= 1,
        ;
        lemma_square_monotone(n * len, (m - 1) * len);
    } else if m < n {
        assert(0 <= m * len <= (n - 1) * len) by (nonlinear_arith)
            requires
                1 <= m <= n - 1,
                len >= 1,
        ;
        lemma_square_monotone(m * len, (n - 1) * len);
    }
}

/// The number of pieces for an edge of squared length `d2` and a target
/// length `len`.
pub open spec fn piece_count(d2: int, len: int) -> int {
    choose|n: int| is_piece_count(d2, len, n)
}

/// Computes the number of pieces for an edge that is longer than the target.
pub fn count_pieces(d2: u128, len: u64) -> (n: u64)
    requires
        len >= 1,
        d2 <= JACOBIAN_LIMIT,
        d2 > len * len,
    ensures
        is_piece_count(d2 as int, len as int, n as int),
        n as int == piece_count(d2 as int, len as int),
        2 <= n <= 2 * SPAN,
{
    let s: u64 = isqrt(d2);
    assert(s <= 116_000_000) by (nonlinear_arith)
        requires
            s * s <= d2,
            d2 <= 13_448_000_000_000_000,
    ;
    assert(len <= s) by (nonlinear_arith)
        requires
            d2 < (s + 1) * (s + 1),
            d2 > len * len,
            len >= 1,
    ;
    let q: u64 = s / len;
    let r: u64 = s % len;
    assert(s == q * len + r && r < len && q >= 1 && q <= s) by (nonlinear_arith)
        requires
            q == s / len,
            r == s % len,
            1 <= len <= s,
    ;
    let low: u64 = if r == 0 {
        q
    } else {
        q + 1
    };
    // `low` is the rounded-up quotient of the rounded-down root
    assert(low * len >= s && (low - 1) * len < s && low * len <= s + len) by (nonlinear_arith)
        requires
            s == q * len + r,
            r < len,
            low == if r == 0 {
                q
            } else {
                (q + 1) as u64
            },
    ;
    let reach: u128 = low as u128 * len as u128;
    assert(reach * reach <= (2 * s) * (2 * s)) by (nonlinear_arith)
        requires
            reach <= s + len,
            len <= s,
    ;
    assert((2 * s) * (2 * s) <= 400_000_000 * 400_000_000) by (nonlinear_arith)
        requires
            s <= 116_000_000,
    ;
    let n: u64 = if reach * reach >= d2 {
        low
    } else {
        low + 1
    };
    proof {
        let ni = n as int;
        let li = len as int;
        let si = s as int;
        assert(reach == low * len);
        if reach * reach >= d2 {
            assert(0 <= (ni - 1) * li) by (nonlinear_arith)
                requires
                    ni >= 1,
                    li >= 1,
            ;
            assert(((ni - 1) * li) * ((ni - 1) * li) < d2) by (nonlinear_arith)
                requires
                    0 <= (ni - 1) * li < si,
                    si * si <= d2,
            ;
        } else {
            assert(ni * li == low * li + li) by (nonlinear_arith)
                requires
                    ni == low + 1,
            ;
            assert((ni * li) * (ni * li) >= d2) by (nonlinear_arith)
                requires
                    ni * li >= si + 1,
                    d2 < (si + 1) * (si + 1),
                    si >= 0,
            ;
        }
        assert(ni >= 2) by (nonlinear_arith)
            requires
                ni >= 1,
                (ni * li) * (ni * li) >= d2,
                d2 > li * li,
                li >= 1,
        ;
        assert(is_piece_count(d2 as int, li, ni));
        let w = choose|m: int| is_piece_count(d2 as int, li, m);
        lemma_piece_count_unique(d2 as int, li, ni, w);
    }
    n
}

/// The point `j` of `n` steps along the way from `a` to `b`, each coordinate
/// rounded toward `a`.
pub open spec fn step_point(a: Point, b: Point, j: int, n: int) -> Point {
    Point {
        x: (a.x + trunc_div(j * (b.x - a.x), n)) as i64,
        y: (a.y + trunc_div(j * (b.y - a.y), n)) as i64,
    }
}

/// A whole fraction of a difference lies between zero and the difference.
pub proof fn lemma_fraction_between(j: int, n: int, d: int)
    requires
        0 <= j <= n,
        n > 0,
    ensures
        d >= 0 ==> 0 <= trunc_div(j * d, n) <= d,
        d <= 0 ==> d <= trunc_div(j * d, n) <= 0,
{
    if d >= 0 {
        assert(0 <= j * d <= n * d) by (nonlinear_arith)
            requires
                0 <= j <= n,
                d >= 0,
        ;
        assert((j * d) / n <= d && (j * d) / n >= 0) by (nonlinear_arith)
            requires
                0 <= j * d <= n * d,
                n > 0,
        ;
    } else {
        assert(0 <= -(j * d) <= n * (-d)) by (nonlinear_arith)
            requires
                0 <= j <= n,
                d < 0,
        ;
        assert((-(j * d)) / n <= -d && (-(j * d)) / n >= 0) by (nonlinear_arith)
            requires
                0 <= -(j * d) <= n * (-d),
                n > 0,
        ;
    }
}

/// Computes the point `j` of `n` steps along the way from `a` to `b`.
pub fn point_at_step(a: &Point, b: &Point, j: u64, n: u64) -> (p: Point)
    requires
        a.within(EXTENT as int),
        b.within(EXTENT as int),
        0 < n <= 2 * SPAN,
        j <= n,
    ensures
        p == step_point(*a, *b, j as int, n as int),
        forall|limit: int| 0 <= limit && a.within(limit) && b.within(limit) ==> p.within(limit),
{
    let dx: i128 = b.x as i128 - a.x as i128;
    let dy: i128 = b.y as i128 - a.y as i128;
    proof {
        lemma_mul_bound(j as int, dx as int, 164_000_000, 82_000_000);
        lemma_mul_bound(j as int, dy as int, 164_000_000, 82_000_000);
        lemma_fraction_between(j as int, n as int, dx as int);
        lemma_fraction_between(j as int, n as int, dy as int);
    }
    let x: i128 = a.x as i128 + (j as i128 * dx) / (n as i128);
    let y: i128 = a.y as i128 + (j as i128 * dy) / (n as i128);
    Point { x: x as i64, y: y as i64 }
}

/// The interior points that cut the edge from `a` to `b` into `n` pieces:
/// steps `1` to `j - 1`.
pub open spec fn edge_cuts(a: Point, b: Point, n: int, j: int) -> Seq<Point>
    decreases j,
{
    if j <= 1 {
        Seq::empty()
    } else {
        edge_cuts(a, b, n, j - 1).push(step_point(a, b, j - 1, n))
    }
}

/// The points that one boundary edge contributes: its first corner, then,
/// if the edge is longer than `len`, the cuts that divide it evenly into
/// pieces no longer than `len`.
pub open spec fn edge_samples(a: Point, b: Point, len: int) -> Seq<Point> {
    if a.dist_sq(b) > len * len {
        seq![a] + edge_cuts(a, b, piece_count(a.dist_sq(b), len), piece_count(a.dist_sq(b), len))
    } else {
        seq![a]
    }
}

/// The samples of the first `k` edges of the closed boundary, where edge `i`
/// runs from corner `i` to the next corner.
pub open spec fn boundary_samples(boundary: Seq<Point>, len: int, k: int) -> Seq<Point>
    decreases k,
{
    if k <= 0 {
        Seq::empty()
    } else {
        boundary_samples(boundary, len, k - 1) + edge_samples(
            boundary[k - 1],
            boundary[k % (boundary.len() as int)],
            len,
        )
    }
}

/// Walks the closed boundary and cuts every edge longer than
/// `target_edge_length` evenly into pieces no longer than it.
pub fn subdivide_boundary(boundary: &[Point], target_edge_length: u64) -> (samples: Vec<Point>)
    requires
        target_edge_length >= 1,
        all_within(boundary@, EXTENT as int),
    ensures
        samples@ == boundary_samples(
            boundary@,
            target_edge_length as int,
            boundary.len() as int,
        ),
        forall|limit: int|
            0 <= limit && all_within(boundary@, limit) ==> all_within(samples@, limit),
        samples.len() >= boundary.len(),
{
    let mut samples: Vec<Point> = Vec::new();
    let count = boundary.len();
    let mut i: usize = 0;
    while i < count
        invariant
            i <= count,
            count == boundary.len(),
            target_edge_length >= 1,
            all_within(boundary@, EXTENT as int),
            samples@ == boundary_samples(boundary@, target_edge_length as int, i as int),
            forall|limit: int|
                0 <= limit && all_within(boundary@, limit) ==> all_within(samples@, limit),
            samples.len() >= i,
        decreases count - i,
    {
        let next_i: usize = if i + 1 == count {
            0
        } else {
            i + 1
        };
        assert(next_i == (i + 1) % (count as int)) by (nonlinear_arith)
            requires
                i < count,
                next_i == if i + 1 == count {
                    0
                } else {
                    i + 1
                },
        ;
        let p1 = boundary[i];
        let p2 = boundary[next_i];
        let ghost before = samples@;
        samples.push(p1);
        let d2 = p1.distance_squared_to(&p2);
        let fits: bool = target_edge_length as u128 <= 2 * (SPAN as u128);
        proof {
            if !fits {
                assert(target_edge_length * target_edge_length >= d2) by (nonlinear_arith)
                    requires
                        target_edge_length > 164_000_000,
                        d2 <= 13_448_000_000_000_000,
                ;
            } else {
                lemma_mul_bound(
                    target_edge_length as int,
                    target_edge_length as int,
                    164_000_000,
                    164_000_000,
                );
            }
        }
        if fits && d2 > (target_edge_length as u128) * (target_edge_length as u128) {
            let num_subdivisions = count_pieces(d2, target_edge_length);
            let mut j: u64 = 1;
            while j < num_subdivisions
                invariant
                    1 <= j <= num_subdivisions <= 2 * SPAN,
                    p1.within(EXTENT as int),
                    p2.within(EXTENT as int),
                    p1 == boundary@[i as int],
                    p2 == boundary@[next_i as int],
                    i < count,
                    next_i < count,
                    count == boundary.len(),
                    samples@ == before.push(p1) + edge_cuts(
                        p1,
                        p2,
                        num_subdivisions as int,
                        j as int,
                    ),
                    forall|limit: int|
                        0 <= limit && all_within(boundary@, limit) ==> all_within(samples@, limit),
                decreases num_subdivisions - j,
            {
                let new_point = point_at_step(&p1, &p2, j, num_subdivisions);
                let ghost sofar = samples@;
                samples.push(new_point);
                assert(samples@ =~= before.push(p1) + edge_cuts(
                    p1,
                    p2,
                    num_subdivisions as int,
                    j as int + 1,
                ));
                assert forall|limit: int| 0 <= limit && all_within(boundary@, limit) implies all_within(
                    samples@,
                    limit,
                ) by {
                    assert(all_within(sofar, limit));
                    assert(p1.within(limit) && p2.within(limit));
                    assert forall|m: int| 0 <= m < samples@.len() implies (
                    #[trigger] samples@[m]).within(limit) by {
                        if m < sofar.len() {
                            assert(sofar[m].within(limit));
                        }
                    }
                }
                j += 1;
            }
            assert(samples@ =~= before + edge_samples(p1, p2, target_edge_length as int));
        } else {
            assert(samples@ =~= before + edge_samples(p1, p2, target_edge_length as int));
            assert forall|limit: int| 0 <= limit && all_within(boundary@, limit) implies all_within(
                samples@,
                limit,
            ) by {
                assert(all_within(before, limit));
                assert(p1.within(limit));
                assert forall|m: int| 0 <= m < samples@.len() implies (#[trigger] samples@[m]).within(
                    limit,
                ) by {
                    if m < before.len() {
                        assert(before[m].within(limit));
                    }
                }
            }
        }
        i += 1;
    }
    samples
}

/// A bare triangle: three indices into a point list.
#[derive(Clone, Copy, Debug)]
pub struct Triangle {
    pub indices: [usize; 3],
}

/// The numerators and the denominator of the circumcentre of `a`, `b`, `c`
/// relative to `a`: the centre is `a + (x, y) / d` for the triple
/// `(x, y, d)`.
pub open spec fn circumcenter_terms(a: Point, b: Point, c: Point) -> (int, int, int) {
    let bx = b.x - a.x;
    let by = b.y - a.y;
    let cx = c.x - a.x;
    let cy = c.y - a.y;
    (
        (bx * bx + by * by) * cy - (cx * cx + cy * cy) * by,
        (cx * cx + cy * cy) * bx - (bx * bx + by * by) * cx,
        2 * (bx * cy - cx * by),
    )
}

/// The circumcentre of `a`, `b`, `c` on the grid, each coordinate rounded
/// toward `a`; none when the points are collinear or the centre lies outside
/// the input range.
pub open spec fn grid_circumcenter(a: Point, b: Point, c: Point) -> Option<Point> {
    let (x, y, d) = circumcenter_terms(a, b, c);
    if d == 0 {
        None
    } else {
        let cx = a.x + signed_trunc_div(x, d);
        let cy = a.y + signed_trunc_div(y, d);
        if -COORD_LIMIT <= cx <= COORD_LIMIT && -COORD_LIMIT <= cy <= COORD_LIMIT {
            Some(Point { x: cx as i64, y: cy as i64 })
        } else {
            None
        }
    }
}

/// Division rounding toward zero for a divisor of either sign: the quotient
/// of the sizes, with the sign of the fraction.
pub open spec fn signed_trunc_div(n: int, d: int) -> int {
    if (n < 0) != (d < 0) {
        -((vstd::math::abs(n) as int) / (vstd::math::abs(d) as int))
    } else {
        (vstd::math::abs(n) as int) / (vstd::math::abs(d) as int)
    }
}

/// Computes a quotient rounded toward zero.
pub fn divide_toward_zero(n: i128, d: i128) -> (q: i128)
    requires
        d != 0,
        -i128::MAX <= n,
        -i128::MAX <= d,
    ensures
        q == signed_trunc_div(n as int, d as int),
        -vstd::math::abs(n as int) <= q <= vstd::math::abs(n as int),
{
    let size_n: i128 = if n < 0 {
        -n
    } else {
        n
    };
    let size_d: i128 = if d < 0 {
        -d
    } else {
        d
    };
    assert(0 <= size_n / size_d <= size_n) by (nonlinear_arith)
        requires
            size_n >= 0,
            size_d >= 1,
    ;
    let q: i128 = size_n / size_d;
    if (n < 0) != (d < 0) {
        -q
    } else {
        q
    }
}

impl Triangle {
    /// The three corners as a tuple.
    pub open spec fn corners(self) -> (usize, usize, usize) {
        (self.indices[0], self.indices[1], self.indices[2])
    }

    /// The three corners index a list of `n` points.
    pub open spec fn in_bounds(self, n: int) -> bool {
        self.indices[0] < n && self.indices[1] < n && self.indices[2] < n
    }

    /// The three corners name points of `points` that lie within `limit`.
    pub open spec fn usable(self, points: Seq<Point>, limit: int) -> bool {
        &&& self.in_bounds(points.len() as int)
        &&& points[self.indices[0] as int].within(limit)
        &&& points[self.indices[1] as int].within(limit)
        &&& points[self.indices[2] as int].within(limit)
    }

    /// The triangle on three points in the given order.
    pub fn new(a: usize, b: usize, c: usize) -> (t: Self)
        ensures
            t.indices[0] == a,
            t.indices[1] == b,
            t.indices[2] == c,
            t.corners() == (a, b, c),
    {
        Self { indices: [a, b, c] }
    }

    /// The three points of the triangle.
    pub fn get_points(&self, points: &[Point]) -> (three: [Point; 3])
        requires
            self.in_bounds(points.len() as int),
        ensures
            three[0] == points@[self.indices[0] as int],
            three[1] == points@[self.indices[1] as int],
            three[2] == points@[self.indices[2] as int],
    {
        [points[self.indices[0]], points[self.indices[1]], points[self.indices[2]]]
    }

    /// The centroid of the triangle, each coordinate rounded toward zero.
    pub fn center(&self, points: &[Point]) -> (c: Point)
        requires
            self.usable(points@, EXTENT as int),
        ensures
            c == centroid_spec(
                points@[self.indices[0] as int],
                points@[self.indices[1] as int],
                points@[self.indices[2] as int],
            ),
            forall|limit: int| 0 <= limit && self.usable(points@, limit) ==> c.within(limit),
    {
        centroid(&points[self.indices[0]], &points[self.indices[1]], &points[self.indices[2]])
    }

    /// The circumcentre of the triangle on the grid; none for collinear
    /// corners and for a centre outside the input range.
    pub fn circumcenter(&self, points: &[Point]) -> (c: Option<Point>)
        requires
            self.usable(points@, EXTENT as int),
        ensures
            c == grid_circumcenter(
                points@[self.indices[0] as int],
                points@[self.indices[1] as int],
                points@[self.indices[2] as int],
            ),
            c is Some ==> c->Some_0.within(COORD_LIMIT as int),
    {
        let p1 = &points[self.indices[0]];
        let p2 = &points[self.indices[1]];
        let p3 = &points[self.indices[2]];
        let bx: i128 = p2.x as i128 - p1.x as i128;
        let by: i128 = p2.y as i128 - p1.y as i128;
        let cx: i128 = p3.x as i128 - p1.x as i128;
        let cy: i128 = p3.y as i128 - p1.y as i128;
        proof {
            lemma_mul_bound(bx as int, bx as int, 82_000_000, 82_000_000);
            lemma_mul_bound(by as int, by as int, 82_000_000, 82_000_000);
            lemma_mul_bound(cx as int, cx as int, 82_000_000, 82_000_000);
            lemma_mul_bound(cy as int, cy as int, 82_000_000, 82_000_000);
            lemma_mul_bound(bx as int, cy as int, 82_000_000, 82_000_000);
            lemma_mul_bound(cx as int, by as int, 82_000_000, 82_000_000);
        }
        let b2: i128 = bx * bx + by * by;
        let c2: i128 = cx * cx + cy * cy;
        proof {
            lemma_mul_bound(b2 as int, cy as int, 13_448_000_000_000_000, 82_000_000);
            lemma_mul_bound(c2 as int, by as int, 13_448_000_000_000_000, 82_000_000);
            lemma_mul_bound(c2 as int, bx as int, 13_448_000_000_000_000, 82_000_000);
            lemma_mul_bound(b2 as int, cx as int, 13_448_000_000_000_000, 82_000_000);
        }
        let d: i128 = 2 * (bx * cy - cx * by);
        if d == 0 {
            return None;
        }
        let ux: i128 = b2 * cy - c2 * by;
        let uy: i128 = c2 * bx - b2 * cx;
        let qx: i128 = divide_toward_zero(ux, d);
        let qy: i128 = divide_toward_zero(uy, d);
        let x: i128 = p1.x as i128 + qx;
        let y: i128 = p1.y as i128 + qy;
        if -1_000_000 <= x && x <= 1_000_000 && -1_000_000 <= y && y <= 1_000_000 {
            Some(Point { x: x as i64, y: y as i64 })
        } else {
            None
        }
    }
}

/// A boundary: the corners of a simple polygon in order, with a name.
#[derive(Clone, Debug)]
pub struct Geometry {
    pub points: Vec<Point>,
    pub name: Option<String>,
}

/// What the annealing optimisers can be told; whatever is left out takes its
/// default.  Temperatures, rates, weights and the aspect ratio are in
/// thousandths, the quality threshold in millionths, areas in half grid
/// cells.
#[derive(Clone, Copy, Debug)]
pub struct AnnealingOptions {
    pub temperature: Option<u64>,
    pub cooling_rate: Option<u64>,
    pub max_iterations: Option<u32>,
    pub quality_threshold: Option<i64>,
    pub check_volume: Option<bool>,
    pub check_aspect_ratio: Option<bool>,
    pub target_aspect_ratio: Option<u64>,
    pub volume_weight: Option<u64>,
    pub aspect_ratio_weight: Option<u64>,
    pub check_size_uniformity: Option<bool>,
    pub size_uniformity_weight: Option<u64>,
    pub target_area: Option<u64>,
    pub min_area: Option<u64>,
}

/// The strategy that generates the mesh.
#[derive(Clone, Copy, Debug, PartialEq, Eq, Structural)]
pub enum Algorithm {
    Delaunay,
    Paving,
    Annealing,
}

/// The strategy that a name stands for: `paving`, `annealing`, and Delaunay
/// for every other name.
pub open spec fn algorithm_named(name: Seq<char>) -> Algorithm {
    if name == "paving"@ {
        Algorithm::Paving
    } else if name == "annealing"@ {
        Algorithm::Annealing
    } else {
        Algorithm::Delaunay
    }
}

impl Algorithm {
    /// The strategy that a name stands for.
    pub fn from_name(name: &str) -> (a: Algorithm)
        ensures
            a == algorithm_named(name@),
    {
        let given = name.to_owned();
        if given == "paving".to_owned() {
            Algorithm::Paving
        } else if given == "annealing".to_owned() {
            Algorithm::Annealing
        } else {
            Algorithm::Delaunay
        }
    }
}

/// A request for a mesh: the boundary, the constraints on the elements and
/// the strategy.  The target area is in half grid cells, the minimum angle in
/// degrees.
#[derive(Clone, Debug)]
pub struct MeshRequest {
    pub geometry: Geometry,
    pub max_area: Option<u64>,
    pub min_angle: Option<u64>,
    pub algorithm: Option<Algorithm>,
    pub annealing_options: Option<AnnealingOptions>,
}

} // verus!
