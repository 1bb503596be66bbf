//! Mesh elements: triangles with their exact circumcircle, canonical edges.

use vstd::prelude::*;
use crate::arith::{isqrt, isqrt_spec, lemma_mul_bound, lemma_square_monotone};
use crate::geometry::{cross, orientation, Point, EXTENT, JACOBIAN_LIMIT};

verus! {

/// Largest absolute denominator of a cached circumcentre: four times the
/// square of the largest coordinate difference.
pub const DEN_LIMIT: i128 = 26_896_000_000_000_000;

/// Largest absolute numerator of a cached circumcentre: four times the cube
/// of the largest coordinate difference.
pub const NUM_LIMIT: i128 = 2_205_472_000_000_000_000_000_000;

/// The circumcircle of three points in exact arithmetic.
///
/// The centre is `origin + (num_x, num_y) / den` and the squared radius is
/// `(num_x² + num_y²) / den²`.  A zero denominator marks three collinear
/// points, which have no finite circumcircle: the radius is infinite and the
/// circle contains no point.
#[derive(Clone, Copy, Debug, PartialEq, Eq, Structural)]
pub struct Circumcircle {
    pub origin: Point,
    pub num_x: i128,
    pub num_y: i128,
    pub den: i128,
}

/// Denominator of the circumcentre of `a`, `b`, `c`, taken relative to `a`:
/// twice the orientation determinant.
pub open spec fn circum_den(a: Point, b: Point, c: Point) -> int {
    2 * cross(a, b, c)
}

/// Numerator of the first coordinate of the circumcentre, relative to `a`.
pub open spec fn circum_num_x(a: Point, b: Point, c: Point) -> int {
    let bx = b.x - a.x;
    let by = b.y - a.y;
    let cx = c.x - a.x;
    let cy = c.y - a.y;
    (bx * bx + by * by) * cy - (cx * cx + cy * cy) * by
}

/// Numerator of the second coordinate of the circumcentre, relative to `a`.
pub open spec fn circum_num_y(a: Point, b: Point, c: Point) -> int {
    let bx = b.x - a.x;
    let by = b.y - a.y;
    let cx = c.x - a.x;
    let cy = c.y - a.y;
    (cx * cx + cy * cy) * bx - (bx * bx + by * by) * cx
}

/// Squared distance of a point from a circle's centre minus the squared
/// radius, both scaled by `den²`; the point is given relative to the
/// circle's origin.  Negative inside the circle, zero on it.
pub open spec fn circle_excess(den: int, num_x: int, num_y: int, px: int, py: int) -> int {
    (den * px - num_x) * (den * px - num_x) + (den * py - num_y) * (den * py - num_y) - (num_x
        * num_x + num_y * num_y)
}

/// Square of a difference whose first term is a product.
pub proof fn lemma_square_of_scaled_difference(d: int, p: int, n: int)
    by (nonlinear_arith)
    ensures
        (d * p - n) * (d * p - n) == d * (d * (p * p)) - 2 * (d * (p * n)) + n * n,
{
}

/// The excess factors through the denominator.
pub proof fn lemma_excess_factors(den: int, num_x: int, num_y: int, px: int, py: int)
    ensures
        circle_excess(den, num_x, num_y, px, py) == den * (den * (px * px + py * py) - 2 * (px
            * num_x + py * num_y)),
{
    lemma_square_of_scaled_difference(den, px, num_x);
    lemma_square_of_scaled_difference(den, py, num_y);
    let a = den * (px * px);
    let b = den * (py * py);
    let u = px * num_x;
    let v = py * num_y;
    assert(den * (px * px + py * py) == a + b) by (nonlinear_arith)
        requires
            a == den * (px * px),
            b == den * (py * py),
    ;
    assert(den * ((a + b) - 2 * (u + v)) == den * a + den * b - 2 * (den * u) - 2 * (den * v))
        by (nonlinear_arith);
}

/// A product is negative exactly when its factors have opposite signs.
pub proof fn lemma_product_negative(a: int, b: int)
    by (nonlinear_arith)
    ensures
        a * b < 0 <==> (a > 0 && b < 0) || (a < 0 && b > 0),
{
}

impl Circumcircle {
    /// The three collinear points have no finite circumcircle.
    pub open spec fn degenerate(self) -> bool {
        self.den == 0
    }

    /// Scaled excess of `p`: see [`circle_excess`].
    pub open spec fn excess(self, p: Point) -> int {
        circle_excess(
            self.den as int,
            self.num_x as int,
            self.num_y as int,
            p.x - self.origin.x,
            p.y - self.origin.y,
        )
    }

    /// `p` lies strictly inside the circle: its squared distance from the
    /// centre is strictly less than the squared radius.  False for every
    /// point when the circle is degenerate.
    pub open spec fn strictly_contains(self, p: Point) -> bool {
        self.den != 0 && self.excess(p) < 0
    }

    /// `p` lies exactly on the circle.
    pub open spec fn passes_through(self, p: Point) -> bool {
        self.excess(p) == 0
    }

    /// The cached values are small enough for the containment test.
    pub open spec fn bounded(self) -> bool {
        &&& self.origin.within(EXTENT as int)
        &&& -DEN_LIMIT <= self.den <= DEN_LIMIT
        &&& -NUM_LIMIT <= self.num_x <= NUM_LIMIT
        &&& -NUM_LIMIT <= self.num_y <= NUM_LIMIT
    }

    /// The circumcircle of `a`, `b`, `c`.
    pub open spec fn of(a: Point, b: Point, c: Point) -> Circumcircle {
        Circumcircle {
            origin: a,
            num_x: circum_num_x(a, b, c) as i128,
            num_y: circum_num_y(a, b, c) as i128,
            den: circum_den(a, b, c) as i128,
        }
    }

    /// Computes the circumcircle of three points.
    pub fn through(a: &Point, b: &Point, c: &Point) -> (circle: Circumcircle)
        requires
            a.within(EXTENT as int),
            b.within(EXTENT as int),
            c.within(EXTENT as int),
        ensures
            circle == Circumcircle::of(*a, *b, *c),
            circle.bounded(),
            circle.den as int == circum_den(*a, *b, *c),
            circle.num_x as int == circum_num_x(*a, *b, *c),
            circle.num_y as int == circum_num_y(*a, *b, *c),
    {
        let bx: i128 = b.x as i128 - a.x as i128;
        let by: i128 = b.y as i128 - a.y as i128;
        let cx: i128 = c.x as i128 - a.x as i128;
        let cy: i128 = c.y as i128 - a.y as i128;
        proof {
            lemma_mul_bound(bx as int, bx as int, 82_000_000, 82_000_000);
            lemma_mul_bound(by as int, by as int, 82_000_000, 82_000_000);
            lemma_mul_bound(cx as int, cx as int, 82_000_000, 82_000_000);
            lemma_mul_bound(cy as int, cy as int, 82_000_000, 82_000_000);
            lemma_mul_bound(bx as int, cy as int, 82_000_000, 82_000_000);
            lemma_mul_bound(cx as int, by as int, 82_000_000, 82_000_000);
        }
        let b2: i128 = bx * bx + by * by;
        let c2: i128 = cx * cx + cy * cy;
        proof {
            lemma_mul_bound(b2 as int, cy as int, 13_448_000_000_000_000, 82_000_000);
            lemma_mul_bound(c2 as int, by as int, 13_448_000_000_000_000, 82_000_000);
            lemma_mul_bound(c2 as int, bx as int, 13_448_000_000_000_000, 82_000_000);
            lemma_mul_bound(b2 as int, cx as int, 13_448_000_000_000_000, 82_000_000);
        }
        let den: i128 = 2 * (bx * cy - cx * by);
        let num_x: i128 = b2 * cy - c2 * by;
        let num_y: i128 = c2 * bx - b2 * cx;
        Circumcircle { origin: *a, num_x, num_y, den }
    }

    /// Whether `p` lies strictly inside the circle.
    pub fn contains(&self, p: &Point) -> (r: bool)
        requires
            self.bounded(),
            p.within(EXTENT as int),
        ensures
            r == self.strictly_contains(*p),
    {
        if self.den == 0 {
            return false;
        }
        let px: i128 = p.x as i128 - self.origin.x as i128;
        let py: i128 = p.y as i128 - self.origin.y as i128;
        proof {
            lemma_mul_bound(px as int, px as int, 82_000_000, 82_000_000);
            lemma_mul_bound(py as int, py as int, 82_000_000, 82_000_000);
            lemma_mul_bound(px as int, self.num_x as int, 82_000_000, 2_205_472_000_000_000_000_000_000);
            lemma_mul_bound(py as int, self.num_y as int, 82_000_000, 2_205_472_000_000_000_000_000_000);
        }
        let p2: i128 = px * px + py * py;
        proof {
            lemma_mul_bound(self.den as int, p2 as int, 26_896_000_000_000_000, 13_448_000_000_000_000);
        }
        let q: i128 = self.den * p2 - 2 * (px * self.num_x + py * self.num_y);
        proof {
            lemma_excess_factors(
                self.den as int,
                self.num_x as int,
                self.num_y as int,
                px as int,
                py as int,
            );
            lemma_product_negative(self.den as int, q as int);
        }
        (self.den > 0 && q < 0) || (self.den < 0 && q > 0)
    }
}

/// Each of three points lies exactly on the circle through them, so none of
/// them lies strictly inside it.
pub proof fn lemma_circle_through_corners(a: Point, b: Point, c: Point)
    requires
        a.within(EXTENT as int),
        b.within(EXTENT as int),
        c.within(EXTENT as int),
    ensures
        Circumcircle::of(a, b, c).passes_through(a),
        Circumcircle::of(a, b, c).passes_through(b),
        Circumcircle::of(a, b, c).passes_through(c),
        !Circumcircle::of(a, b, c).strictly_contains(a),
        !Circumcircle::of(a, b, c).strictly_contains(b),
        !Circumcircle::of(a, b, c).strictly_contains(c),
{
    let bx = b.x - a.x;
    let by = b.y - a.y;
    let cx = c.x - a.x;
    let cy = c.y - a.y;
    let den = circum_den(a, b, c);
    let nx = circum_num_x(a, b, c);
    let ny = circum_num_y(a, b, c);
    lemma_circum_bounds(a, b, c);
    let circle = Circumcircle::of(a, b, c);
    assert(circle.den as int == den && circle.num_x as int == nx && circle.num_y as int == ny);
    lemma_excess_factors(den, nx, ny, 0, 0);
    lemma_excess_factors(den, nx, ny, bx, by);
    lemma_excess_factors(den, nx, ny, cx, cy);
    let b2 = bx * bx + by * by;
    let c2 = cx * cx + cy * cy;
    lemma_corner_identity(bx, by, cx, cy, b2, c2);
    assert(den * b2 - 2 * (bx * nx + by * ny) == 0);
    lemma_corner_identity(cx, cy, bx, by, c2, b2);
    let mx = c2 * by - b2 * cy;
    let my = b2 * cx - c2 * bx;
    assert(mx == -nx && my == -ny);
    assert((2 * (cx * by - bx * cy)) * c2 - 2 * (cx * mx + cy * my) == 0);
    assert(den * c2 - 2 * (cx * nx + cy * ny) == 0) by (nonlinear_arith)
        requires
            (2 * (cx * by - bx * cy)) * c2 - 2 * (cx * mx + cy * my) == 0,
            mx == -nx,
            my == -ny,
            den == 2 * (bx * cy - cx * by),
    ;
    assert(den * (0 * 0 + 0 * 0) - 2 * (0 * nx + 0 * ny) == 0) by (nonlinear_arith);
    assert(circle.excess(a) == 0) by (nonlinear_arith)
        requires
            circle.excess(a) == circle_excess(den, nx, ny, 0, 0),
            circle_excess(den, nx, ny, 0, 0) == den * (den * (0 * 0 + 0 * 0) - 2 * (0 * nx + 0
                * ny)),
            den * (0 * 0 + 0 * 0) - 2 * (0 * nx + 0 * ny) == 0,
    ;
    assert(circle.excess(b) == 0) by (nonlinear_arith)
        requires
            circle.excess(b) == circle_excess(den, nx, ny, bx, by),
            circle_excess(den, nx, ny, bx, by) == den * (den * (bx * bx + by * by) - 2 * (bx
                * nx + by * ny)),
            den * b2 - 2 * (bx * nx + by * ny) == 0,
            b2 == bx * bx + by * by,
    ;
    assert(circle.excess(c) == 0) by (nonlinear_arith)
        requires
            circle.excess(c) == circle_excess(den, nx, ny, cx, cy),
            circle_excess(den, nx, ny, cx, cy) == den * (den * (cx * cx + cy * cy) - 2 * (cx
                * nx + cy * ny)),
            den * c2 - 2 * (cx * nx + cy * ny) == 0,
            c2 == cx * cx + cy * cy,
    ;
}

/// With `n = (b2·cy − c2·by, c2·bx − b2·cx)` and `d = 2(bx·cy − cx·by)`, the
/// vector `b = (bx, by)` satisfies `d·b2 = 2 b·n`, whatever `b2` and `c2` are.
pub proof fn lemma_corner_identity(bx: int, by: int, cx: int, cy: int, b2: int, c2: int)
    ensures
        (2 * (bx * cy - cx * by)) * b2 - 2 * (bx * (b2 * cy - c2 * by) + by * (c2 * bx - b2
            * cx)) == 0,
{
    let p = bx * cy;
    let q = cx * by;
    let r = bx * by;
    assert(bx * (b2 * cy - c2 * by) == b2 * p - c2 * r) by (nonlinear_arith)
        requires
            p == bx * cy,
            r == bx * by,
    ;
    assert(by * (c2 * bx - b2 * cx) == c2 * r - b2 * q) by (nonlinear_arith)
        requires
            q == cx * by,
            r == bx * by,
    ;
    assert((2 * (p - q)) * b2 == 2 * (b2 * p) - 2 * (b2 * q)) by (nonlinear_arith);
}

/// The circumcircle of three working points fits the cached integer widths.
pub proof fn lemma_circum_bounds(a: Point, b: Point, c: Point)
    requires
        a.within(EXTENT as int),
        b.within(EXTENT as int),
        c.within(EXTENT as int),
    ensures
        -DEN_LIMIT <= circum_den(a, b, c) <= DEN_LIMIT,
        -NUM_LIMIT <= circum_num_x(a, b, c) <= NUM_LIMIT,
        -NUM_LIMIT <= circum_num_y(a, b, c) <= NUM_LIMIT,
        Circumcircle::of(a, b, c).bounded(),
{
    let bx = b.x - a.x;
    let by = b.y - a.y;
    let cx = c.x - a.x;
    let cy = c.y - a.y;
    lemma_mul_bound(bx, bx, 82_000_000, 82_000_000);
    lemma_mul_bound(by, by, 82_000_000, 82_000_000);
    lemma_mul_bound(cx, cx, 82_000_000, 82_000_000);
    lemma_mul_bound(cy, cy, 82_000_000, 82_000_000);
    lemma_mul_bound(bx, cy, 82_000_000, 82_000_000);
    lemma_mul_bound(cx, by, 82_000_000, 82_000_000);
    let b2 = bx * bx + by * by;
    let c2 = cx * cx + cy * cy;
    lemma_mul_bound(b2, cy, 13_448_000_000_000_000, 82_000_000);
    lemma_mul_bound(c2, by, 13_448_000_000_000_000, 82_000_000);
    lemma_mul_bound(c2, bx, 13_448_000_000_000_000, 82_000_000);
    lemma_mul_bound(b2, cx, 13_448_000_000_000_000, 82_000_000);
}

/// Corners of a triangle, as indices into a point list.
pub type Corners = (usize, usize, usize);

/// Corner `k` of a triple of corners, counted modulo three.
pub open spec fn corner(c: Corners, k: int) -> usize {
    if k % 3 == 0 {
        c.0
    } else if k % 3 == 1 {
        c.1
    } else {
        c.2
    }
}

/// The unordered pair `{u, v}`, lower index first.
pub open spec fn edge_key(u: usize, v: usize) -> (usize, usize) {
    if u < v {
        (u, v)
    } else {
        (v, u)
    }
}

/// Side `k` of a triangle: the unordered pair of corner `k` and the next.
pub open spec fn side(c: Corners, k: int) -> (usize, usize) {
    edge_key(corner(c, k), corner(c, k + 1))
}

/// Whether one of the three sides of the triangle is the edge `e`.
pub open spec fn has_side(c: Corners, e: (usize, usize)) -> bool {
    side(c, 0) == e || side(c, 1) == e || side(c, 2) == e
}

/// The three corners are valid indices into a list of `n` points.
pub open spec fn corners_in_bounds(c: Corners, n: int) -> bool {
    c.0 < n && c.1 < n && c.2 < n
}

/// Twice the signed area of the triangle with corners `c` over `points`.
pub open spec fn corners_jacobian(c: Corners, points: Seq<Point>) -> int {
    cross(points[c.0 as int], points[c.1 as int], points[c.2 as int])
}

/// The circumcircle of the triangle with corners `c` over `points`.
pub open spec fn corners_circle(c: Corners, points: Seq<Point>) -> Circumcircle {
    Circumcircle::of(points[c.0 as int], points[c.1 as int], points[c.2 as int])
}

/// A triangle: three indices into a point list, with the circumcircle of the
/// three points cached at construction.  When a referenced point moves the
/// triangle has to be built anew.
#[derive(Clone, Copy, Debug)]
pub struct Triangle {
    pub vertices: [usize; 3],
    pub circumcircle: Circumcircle,
}

impl Triangle {
    /// The three corners as a tuple.  They stand for the whole triangle
    /// over a point list: the cached circumcircle of a well-formed triangle
    /// is the one of the points they name.
    pub open spec fn corners(self) -> Corners {
        (self.vertices[0], self.vertices[1], self.vertices[2])
    }

    /// Twice the signed area over `points`.
    pub open spec fn jacobian_spec(self, points: Seq<Point>) -> int {
        corners_jacobian(self.corners(), points)
    }

    /// The corners index `points`, the three points are working points, and
    /// the cached circumcircle is the one of their current positions.
    pub open spec fn wf(self, points: Seq<Point>) -> bool {
        &&& corners_in_bounds(self.corners(), points.len() as int)
        &&& points[self.vertices[0] as int].within(EXTENT as int)
        &&& points[self.vertices[1] as int].within(EXTENT as int)
        &&& points[self.vertices[2] as int].within(EXTENT as int)
        &&& self.circumcircle == corners_circle(self.corners(), points)
    }

    /// Builds the triangle on three points of `points` and caches their
    /// circumcircle.
    pub fn new(vertices: [usize; 3], points: &[Point]) -> (t: Self)
        requires
            vertices[0] < points.len(),
            vertices[1] < points.len(),
            vertices[2] < points.len(),
            points@[vertices[0] as int].within(EXTENT as int),
            points@[vertices[1] as int].within(EXTENT as int),
            points@[vertices[2] as int].within(EXTENT as int),
        ensures
            t.vertices == vertices,
            t.corners() == (vertices[0], vertices[1], vertices[2]),
            t.wf(points@),
    {
        let circumcircle = Self::calculate_circumcircle(vertices, points);
        Self { vertices, circumcircle }
    }

    fn calculate_circumcircle(vertices: [usize; 3], points: &[Point]) -> (circle: Circumcircle)
        requires
            vertices[0] < points.len(),
            vertices[1] < points.len(),
            vertices[2] < points.len(),
            points@[vertices[0] as int].within(EXTENT as int),
            points@[vertices[1] as int].within(EXTENT as int),
            points@[vertices[2] as int].within(EXTENT as int),
        ensures
            circle == corners_circle((vertices[0], vertices[1], vertices[2]), points@),
            circle.bounded(),
    {
        Circumcircle::through(&points[vertices[0]], &points[vertices[1]], &points[vertices[2]])
    }

    /// Whether the triangle has no finite circumcircle: its three points are
    /// collinear and the circumradius is infinite.
    pub fn has_infinite_circumradius(&self) -> (r: bool)
        ensures
            r == self.circumcircle.degenerate(),
    {
        self.circumcircle.den == 0
    }

    /// Whether `point` lies strictly inside the cached circumcircle.  Never
    /// true of a triangle with collinear corners.
    pub fn contains_point_in_circumcircle(&self, point: &Point) -> (r: bool)
        requires
            self.circumcircle.bounded(),
            point.within(EXTENT as int),
        ensures
            r == self.circumcircle.strictly_contains(*point),
    {
        self.circumcircle.contains(point)
    }

    /// Twice the signed area: positive exactly when the corners run
    /// counter-clockwise.
    pub fn jacobian(&self, points: &[Point]) -> (j: i128)
        requires
            corners_in_bounds(self.corners(), points.len() as int),
            points@[self.vertices[0] as int].within(EXTENT as int),
            points@[self.vertices[1] as int].within(EXTENT as int),
            points@[self.vertices[2] as int].within(EXTENT as int),
        ensures
            j as int == self.jacobian_spec(points@),
            -JACOBIAN_LIMIT <= j <= JACOBIAN_LIMIT,
    {
        orientation(
            &points[self.vertices[0]],
            &points[self.vertices[1]],
            &points[self.vertices[2]],
        )
    }

    /// The area in half grid cells: the absolute value of the Jacobian.
    pub fn area(&self, points: &[Point]) -> (a: u128)
        requires
            corners_in_bounds(self.corners(), points.len() as int),
            points@[self.vertices[0] as int].within(EXTENT as int),
            points@[self.vertices[1] as int].within(EXTENT as int),
            points@[self.vertices[2] as int].within(EXTENT as int),
        ensures
            a as int == vstd::math::abs(self.jacobian_spec(points@)),
            a <= JACOBIAN_LIMIT,
    {
        let j: i128 = self.jacobian(points);
        if j >= 0 {
            j as u128
        } else {
            (-j) as u128
        }
    }

    /// Whether the corners run counter-clockwise.
    pub fn is_properly_oriented(&self, points: &[Point]) -> (r: bool)
        requires
            corners_in_bounds(self.corners(), points.len() as int),
            points@[self.vertices[0] as int].within(EXTENT as int),
            points@[self.vertices[1] as int].within(EXTENT as int),
            points@[self.vertices[2] as int].within(EXTENT as int),
        ensures
            r == (self.jacobian_spec(points@) > 0),
    {
        self.jacobian(points) > 0
    }
}

/// The corners of a well-formed triangle lie exactly on its cached
/// circumcircle, and the containment test rejects each of them.
pub proof fn lemma_corners_on_circumcircle(t: Triangle, points: Seq<Point>)
    requires
        t.wf(points),
    ensures
        t.circumcircle.passes_through(points[t.vertices[0] as int]),
        t.circumcircle.passes_through(points[t.vertices[1] as int]),
        t.circumcircle.passes_through(points[t.vertices[2] as int]),
        !t.circumcircle.strictly_contains(points[t.vertices[0] as int]),
        !t.circumcircle.strictly_contains(points[t.vertices[1] as int]),
        !t.circumcircle.strictly_contains(points[t.vertices[2] as int]),
{
    lemma_circle_through_corners(
        points[t.vertices[0] as int],
        points[t.vertices[1] as int],
        points[t.vertices[2] as int],
    );
}

/// A triangle whose corners are collinear has an infinite circumradius, and
/// its circumcircle contains no point at all.
pub proof fn lemma_collinear_contains_nothing(t: Triangle, points: Seq<Point>, p: Point)
    requires
        t.wf(points),
        t.jacobian_spec(points) == 0,
    ensures
        t.circumcircle.degenerate(),
        !t.circumcircle.strictly_contains(p),
{
    lemma_circum_bounds(
        points[t.vertices[0] as int],
        points[t.vertices[1] as int],
        points[t.vertices[2] as int],
    );
}

/// An edge: an unordered pair of point indices, kept with the lower index
/// first so that the two triangles on either side of it name it alike.
#[derive(Clone, Copy, Debug)]
pub struct Edge {
    pub vertices: [usize; 2],
}

impl Edge {
    /// The pair of indices, lower first.
    pub open spec fn key(self) -> (usize, usize) {
        (self.vertices[0], self.vertices[1])
    }

    /// The edge between two points, whichever is named first.
    pub fn new(v1: usize, v2: usize) -> (e: Self)
        ensures
            e.key() == edge_key(v1, v2),
            e.vertices[0] <= e.vertices[1],
    {
        let vertices = if v1 < v2 {
            [v1, v2]
        } else {
            [v2, v1]
        };
        Self { vertices }
    }

    /// Whether two edges join the same pair of points.
    pub fn same_as(&self, other: &Edge) -> (r: bool)
        ensures
            r == (self.key() == other.key()),
    {
        self.vertices[0] == other.vertices[0] && self.vertices[1] == other.vertices[1]
    }
}

/// Corners of a quad, as indices into a point list, in winding order.
pub type QuadCorners = (usize, usize, usize, usize);

/// The four corners are valid indices into a list of `n` points.
pub open spec fn quad_in_bounds(c: QuadCorners, n: int) -> bool {
    c.0 < n && c.1 < n && c.2 < n && c.3 < n
}

/// The four points that the corners name lie within `limit`.
pub open spec fn quad_within(c: QuadCorners, points: Seq<Point>, limit: int) -> bool {
    &&& points[c.0 as int].within(limit)
    &&& points[c.1 as int].within(limit)
    &&& points[c.2 as int].within(limit)
    &&& points[c.3 as int].within(limit)
}

/// The cross product of two vectors.
pub open spec fn cross2(ax: int, ay: int, bx: int, by: int) -> int {
    ax * by - bx * ay
}

/// Sixteen times the Jacobian of the bilinear map at the centre of the
/// reference square.
pub open spec fn quad_center_jacobian(c: QuadCorners, points: Seq<Point>) -> int {
    let p1 = points[c.0 as int];
    let p2 = points[c.1 as int];
    let p3 = points[c.2 as int];
    let p4 = points[c.3 as int];
    cross2(
        -p1.x + p2.x + p3.x - p4.x,
        -p1.y + p2.y + p3.y - p4.y,
        -p1.x - p2.x + p3.x + p4.x,
        -p1.y - p2.y + p3.y + p4.y,
    )
}

/// How far the Jacobian swings over the reference square: sixteen times the
/// Jacobian at `(xi, eta)` is the centre value plus `xi` times one
/// coefficient plus `eta` times another, and this is the sum of the absolute
/// values of the two coefficients.
pub open spec fn quad_jacobian_swing(c: QuadCorners, points: Seq<Point>) -> int {
    let p1 = points[c.0 as int];
    let p2 = points[c.1 as int];
    let p3 = points[c.2 as int];
    let p4 = points[c.3 as int];
    let ax = -p1.x + p2.x + p3.x - p4.x;
    let ay = -p1.y + p2.y + p3.y - p4.y;
    let bx = -p1.x - p2.x + p3.x + p4.x;
    let by = -p1.y - p2.y + p3.y + p4.y;
    let cx = p1.x - p2.x + p3.x - p4.x;
    let cy = p1.y - p2.y + p3.y - p4.y;
    (vstd::math::abs(cross2(ax, ay, cx, cy)) + vstd::math::abs(cross2(cx, cy, bx, by))) as int
}

/// The least of the Jacobians at the four Gauss points `(±1/√3, ±1/√3)`, in
/// sixteenths and rounded up: the centre value less the swing divided by the
/// square root of three, that quotient rounded down.  Rounded so, it is
/// positive exactly when the exact value is.
pub open spec fn quad_min_jacobian(c: QuadCorners, points: Seq<Point>) -> int {
    quad_center_jacobian(c, points) - isqrt_spec(
        quad_jacobian_swing(c, points) * quad_jacobian_swing(c, points) / 3,
    )
}

/// The least of the Jacobians at the four Gauss points is strictly positive:
/// the centre value exceeds the swing divided by the square root of three.
pub open spec fn quad_positive(c: QuadCorners, points: Seq<Point>) -> bool {
    let center = quad_center_jacobian(c, points);
    let swing = quad_jacobian_swing(c, points);
    center > 0 && 3 * (center * center) > swing * swing
}

/// Twice the signed area enclosed by the four corners (shoelace sum).
pub open spec fn quad_shoelace(c: QuadCorners, points: Seq<Point>) -> int {
    let p1 = points[c.0 as int];
    let p2 = points[c.1 as int];
    let p3 = points[c.2 as int];
    let p4 = points[c.3 as int];
    (p1.x * p2.y - p2.x * p1.y) + (p2.x * p3.y - p3.x * p2.y) + (p3.x * p4.y - p4.x * p3.y) + (
    p4.x * p1.y - p1.x * p4.y)
}

/// Largest absolute value of a quad's centre Jacobian or swing, in
/// sixteenths.
pub const QUAD_LIMIT: i128 = 215_168_000_000_000_000;

/// A quadrilateral: four indices into a point list in one winding order.
#[derive(Clone, Copy, Debug)]
pub struct Quad {
    pub vertices: [usize; 4],
}

impl Quad {
    /// The four corners as a tuple.
    pub open spec fn corners(self) -> QuadCorners {
        (self.vertices[0], self.vertices[1], self.vertices[2], self.vertices[3])
    }

    /// The corners index `points`, and the four points are working points.
    pub open spec fn wf(self, points: Seq<Point>) -> bool {
        quad_in_bounds(self.corners(), points.len() as int) && quad_within(
            self.corners(),
            points,
            EXTENT as int,
        )
    }

    /// The quad on four points in the given winding order.
    pub fn new(vertices: [usize; 4]) -> (q: Self)
        ensures
            q.vertices == vertices,
    {
        Self { vertices }
    }

    /// The area in half grid cells: the absolute value of the shoelace sum.
    pub fn area(&self, points: &[Point]) -> (a: u128)
        requires
            self.wf(points@),
        ensures
            a as int == vstd::math::abs(quad_shoelace(self.corners(), points@)),
    {
        let p1 = &points[self.vertices[0]];
        let p2 = &points[self.vertices[1]];
        let p3 = &points[self.vertices[2]];
        let p4 = &points[self.vertices[3]];
        proof {
            lemma_mul_bound(p1.x as int, p2.y as int, 41_000_000, 41_000_000);
            lemma_mul_bound(p2.x as int, p1.y as int, 41_000_000, 41_000_000);
            lemma_mul_bound(p2.x as int, p3.y as int, 41_000_000, 41_000_000);
            lemma_mul_bound(p3.x as int, p2.y as int, 41_000_000, 41_000_000);
            lemma_mul_bound(p3.x as int, p4.y as int, 41_000_000, 41_000_000);
            lemma_mul_bound(p4.x as int, p3.y as int, 41_000_000, 41_000_000);
            lemma_mul_bound(p4.x as int, p1.y as int, 41_000_000, 41_000_000);
            lemma_mul_bound(p1.x as int, p4.y as int, 41_000_000, 41_000_000);
        }
        let sum: i128 = (p1.x as i128 * p2.y as i128 - p2.x as i128 * p1.y as i128) + (p2.x as i128
            * p3.y as i128 - p3.x as i128 * p2.y as i128) + (p3.x as i128 * p4.y as i128
            - p4.x as i128 * p3.y as i128) + (p4.x as i128 * p1.y as i128 - p1.x as i128
            * p4.y as i128);
        if sum >= 0 {
            sum as u128
        } else {
            (-sum) as u128
        }
    }

    /// The centre value and the swing of the Jacobian, in sixteenths.
    fn jacobian_terms(&self, points: &[Point]) -> (terms: (i128, i128))
        requires
            self.wf(points@),
        ensures
            terms.0 as int == quad_center_jacobian(self.corners(), points@),
            terms.1 as int == quad_jacobian_swing(self.corners(), points@),
            -QUAD_LIMIT <= terms.0 <= QUAD_LIMIT,
            0 <= terms.1 <= QUAD_LIMIT,
    {
        let p1 = &points[self.vertices[0]];
        let p2 = &points[self.vertices[1]];
        let p3 = &points[self.vertices[2]];
        let p4 = &points[self.vertices[3]];
        let ax: i128 = -(p1.x as i128) + p2.x as i128 + p3.x as i128 - p4.x as i128;
        let ay: i128 = -(p1.y as i128) + p2.y as i128 + p3.y as i128 - p4.y as i128;
        let bx: i128 = -(p1.x as i128) - p2.x as i128 + p3.x as i128 + p4.x as i128;
        let by: i128 = -(p1.y as i128) - p2.y as i128 + p3.y as i128 + p4.y as i128;
        let cx: i128 = p1.x as i128 - p2.x as i128 + p3.x as i128 - p4.x as i128;
        let cy: i128 = p1.y as i128 - p2.y as i128 + p3.y as i128 - p4.y as i128;
        proof {
            lemma_mul_bound(ax as int, by as int, 164_000_000, 164_000_000);
            lemma_mul_bound(bx as int, ay as int, 164_000_000, 164_000_000);
            lemma_mul_bound(ax as int, cy as int, 164_000_000, 164_000_000);
            lemma_mul_bound(cx as int, ay as int, 164_000_000, 164_000_000);
            lemma_mul_bound(cx as int, by as int, 164_000_000, 164_000_000);
            lemma_mul_bound(bx as int, cy as int, 164_000_000, 164_000_000);
        }
        let center: i128 = ax * by - bx * ay;
        let along: i128 = ax * cy - cx * ay;
        let across: i128 = cx * by - bx * cy;
        let swing: i128 = (if along >= 0 {
            along
        } else {
            -along
        }) + (if across >= 0 {
            across
        } else {
            -across
        });
        (center, swing)
    }

    /// Sixteen times the Jacobian of the bilinear map at the centre of the
    /// element.
    pub fn jacobian_at_center(&self, points: &[Point]) -> (j: i128)
        requires
            self.wf(points@),
        ensures
            j as int == quad_center_jacobian(self.corners(), points@),
    {
        self.jacobian_terms(points).0
    }

    /// The least Jacobian over the four Gauss points, in sixteenths and
    /// rounded up, so that it is positive exactly when the quad is.
    pub fn min_jacobian(&self, points: &[Point]) -> (m: i128)
        requires
            self.wf(points@),
        ensures
            m as int == quad_min_jacobian(self.corners(), points@),
            m > 0 <==> quad_positive(self.corners(), points@),
            -2 * QUAD_LIMIT <= m <= QUAD_LIMIT,
    {
        let (center, swing) = self.jacobian_terms(points);
        proof {
            lemma_mul_bound(swing as int, swing as int, QUAD_LIMIT as int, QUAD_LIMIT as int);
        }
        let square: i128 = swing * swing;
        let third: i128 = square / 3;
        let root: u64 = isqrt(third as u128);
        let r: i128 = root as i128;
        assert(r <= swing) by (nonlinear_arith)
            requires
                r * r <= third,
                third <= square,
                square == swing * swing,
                0 <= swing,
                0 <= r,
        ;
        proof {
            // the quotient rounded down tells the sign: the centre value
            // exceeds the exact quotient exactly when it exceeds `r`
            if center > r {
                lemma_square_monotone(r + 1, center as int);
                assert(3 * (center * center) > square) by (nonlinear_arith)
                    requires
                        center * center >= (r + 1) * (r + 1),
                        third < (r + 1) * (r + 1),
                        third == square / 3,
                ;
            } else if center > 0 {
                lemma_square_monotone(center as int, r as int);
                assert(3 * (center * center) <= square) by (nonlinear_arith)
                    requires
                        center * center <= r * r,
                        r * r <= third,
                        third == square / 3,
                        square >= 0,
                ;
            }
        }
        center - r
    }

    /// Whether the least Jacobian over the four Gauss points is strictly
    /// positive.
    pub fn is_properly_oriented(&self, points: &[Point]) -> (r: bool)
        requires
            self.wf(points@),
        ensures
            r == quad_positive(self.corners(), points@),
    {
        let (center, swing) = self.jacobian_terms(points);
        proof {
            lemma_mul_bound(swing as int, swing as int, QUAD_LIMIT as int, QUAD_LIMIT as int);
            lemma_mul_bound(center as int, center as int, QUAD_LIMIT as int, QUAD_LIMIT as int);
        }
        center > 0 && 3 * (center * center) > swing * swing
    }
}

} // verus!
