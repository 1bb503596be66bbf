//! The mesh container: an indexed vertex list with its elements.

use vstd::prelude::*;
use crate::elements::{
    corners_in_bounds, corners_jacobian, quad_in_bounds, quad_min_jacobian, quad_positive,
    quad_within, Corners, Quad, QuadCorners, Triangle,
};
use crate::geometry::{orientation, trunc_div, Point, EXTENT};

verus! {

/// Why a mesh could not be produced or was rejected.
#[derive(Clone, Copy, Debug, PartialEq, Eq, Structural)]
pub enum MeshError {
    /// The boundary has fewer points than the chosen algorithm needs.
    TooFewPoints { needed: usize, found: usize },
    /// A coordinate lies outside the range the library works in.
    CoordinateOutOfRange,
    /// An element names a vertex that the mesh does not have.
    IndexOutOfRange { element: usize },
    /// The triangle with this index has this Jacobian, which is not positive.
    NonPositiveTriangle { index: usize, jacobian: i128 },
    /// The quad with this index has this minimum Jacobian (rounded up),
    /// which is not positive.
    NonPositiveQuad { index: usize, min_jacobian: i128 },
}

/// The corner triples of a list of index arrays.
pub open spec fn index_corners(indices: Seq<[usize; 3]>) -> Seq<Corners> {
    Seq::new(indices.len(), |i: int| (indices[i][0], indices[i][1], indices[i][2]))
}

/// The three points that a corner triple names, in order.
pub open spec fn corner_points(c: Corners, vertices: Seq<Point>) -> Seq<Point> {
    seq![vertices[c.0 as int], vertices[c.1 as int], vertices[c.2 as int]]
}

/// The corner quadruples of a list of index arrays.
pub open spec fn index_quads(indices: Seq<[usize; 4]>) -> Seq<QuadCorners> {
    Seq::new(indices.len(), |i: int| (indices[i][0], indices[i][1], indices[i][2], indices[i][3]))
}

/// The four points that a corner quadruple names, in order.
pub open spec fn quad_points(c: QuadCorners, vertices: Seq<Point>) -> Seq<Point> {
    seq![vertices[c.0 as int], vertices[c.1 as int], vertices[c.2 as int], vertices[c.3 as int]]
}

/// The three points that the corners name lie within `limit`.
pub open spec fn corners_within(c: Corners, points: Seq<Point>, limit: int) -> bool {
    &&& points[c.0 as int].within(limit)
    &&& points[c.1 as int].within(limit)
    &&& points[c.2 as int].within(limit)
}

/// What is wrong with a triangle, if anything: a corner that is no vertex,
/// a corner outside the working range, or a Jacobian that is not positive.
pub open spec fn triangle_fault(c: Corners, vertices: Seq<Point>, i: int) -> Option<MeshError> {
    if !corners_in_bounds(c, vertices.len() as int) {
        Some(MeshError::IndexOutOfRange { element: i as usize })
    } else if !corners_within(c, vertices, EXTENT as int) {
        Some(MeshError::CoordinateOutOfRange)
    } else if corners_jacobian(c, vertices) <= 0 {
        Some(
            MeshError::NonPositiveTriangle {
                index: i as usize,
                jacobian: corners_jacobian(c, vertices) as i128,
            },
        )
    } else {
        None
    }
}

/// The fault of the first faulty triangle among the first `n`.
pub open spec fn first_triangle_fault(tris: Seq<Corners>, vertices: Seq<Point>, n: int) -> Option<
    MeshError,
>
    decreases n,
{
    if n <= 0 {
        None
    } else {
        match first_triangle_fault(tris, vertices, n - 1) {
            Some(e) => Some(e),
            None => triangle_fault(tris[n - 1], vertices, n - 1),
        }
    }
}

/// What is wrong with a quad, if anything.
pub open spec fn quad_fault(c: QuadCorners, vertices: Seq<Point>, i: int) -> Option<MeshError> {
    if !quad_in_bounds(c, vertices.len() as int) {
        Some(MeshError::IndexOutOfRange { element: i as usize })
    } else if !quad_within(c, vertices, EXTENT as int) {
        Some(MeshError::CoordinateOutOfRange)
    } else if !quad_positive(c, vertices) {
        Some(
            MeshError::NonPositiveQuad {
                index: i as usize,
                min_jacobian: quad_min_jacobian(c, vertices) as i128,
            },
        )
    } else {
        None
    }
}

/// The fault of the first faulty quad among the first `n`.
pub open spec fn first_quad_fault(quads: Seq<QuadCorners>, vertices: Seq<Point>, n: int) -> Option<
    MeshError,
>
    decreases n,
{
    if n <= 0 {
        None
    } else {
        match first_quad_fault(quads, vertices, n - 1) {
            Some(e) => Some(e),
            None => quad_fault(quads[n - 1], vertices, n - 1),
        }
    }
}

/// A mesh: an ordered vertex list, the triangles as index triples with a copy
/// of their three points beside them, and optionally quads in the same form.
#[derive(Clone, Debug)]
pub struct Mesh {
    pub vertices: Vec<Point>,
    pub triangles: Vec<Vec<Point>>,
    pub triangle_indices: Vec<[usize; 3]>,
    pub quads: Option<Vec<Vec<Point>>>,
    pub quad_indices: Option<Vec<[usize; 4]>>,
}

impl Mesh {
    /// The triangles as corner triples.
    pub open spec fn tri_corners(self) -> Seq<Corners> {
        index_corners(self.triangle_indices@)
    }

    /// Every triangle names three vertices of the mesh.
    pub open spec fn triangles_in_bounds(self) -> bool {
        forall|i: int|
            0 <= i < self.triangle_indices.len() ==> corners_in_bounds(
                #[trigger] self.tri_corners()[i],
                self.vertices.len() as int,
            )
    }

    /// The point copies beside the triangle indices are the current
    /// positions of the vertices they name.
    pub open spec fn triangles_denormalized(self) -> bool {
        &&& self.triangles.len() == self.triangle_indices.len()
        &&& forall|i: int|
            0 <= i < self.triangle_indices.len() ==> (#[trigger] self.triangles[i])@
                == corner_points(self.tri_corners()[i], self.vertices@)
    }

    /// The mesh holds quads, and the point copies beside the quad indices
    /// are the current positions of the vertices they name.
    pub open spec fn quads_denormalized(self) -> bool {
        &&& self.quads is Some
        &&& self.quad_indices is Some
        &&& self.quads->Some_0.len() == self.quad_corners().len()
        &&& forall|i: int|
            0 <= i < self.quad_corners().len() ==> (#[trigger] self.quads->Some_0[i])@
                == quad_points(self.quad_corners()[i], self.vertices@)
    }

    /// Builds a triangle mesh from a vertex list and triangles over it.
    pub fn new(vertices: Vec<Point>, triangles: Vec<Triangle>) -> (m: Self)
        requires
            forall|i: int|
                0 <= i < triangles.len() ==> corners_in_bounds(
                    (#[trigger] triangles[i]).corners(),
                    vertices.len() as int,
                ),
        ensures
            m.vertices@ == vertices@,
            m.tri_corners() == triangles@.map_values(|t: Triangle| t.corners()),
            m.triangles_in_bounds(),
            m.triangles_denormalized(),
            m.quads is None,
            m.quad_indices is None,
    {
        let mut triangle_indices: Vec<[usize; 3]> = Vec::new();
        let mut triangle_points: Vec<Vec<Point>> = Vec::new();
        let mut i: usize = 0;
        while i < triangles.len()
            invariant
                i <= triangles.len(),
                triangle_indices.len() == i,
                triangle_points.len() == i,
                forall|k: int|
                    0 <= k < triangles.len() ==> corners_in_bounds(
                        (#[trigger] triangles[k]).corners(),
                        vertices.len() as int,
                    ),
                forall|k: int|
                    0 <= k < i ==> (#[trigger] triangle_indices@[k]) == triangles[k].vertices,
                forall|k: int|
                    0 <= k < i ==> (#[trigger] triangle_points[k])@ == corner_points(
                        triangles[k].corners(),
                        vertices@,
                    ),
            decreases triangles.len() - i,
        {
            let t = &triangles[i];
            assert(corners_in_bounds(t.corners(), vertices.len() as int));
            let three: Vec<Point> = vec![
                vertices[t.vertices[0]],
                vertices[t.vertices[1]],
                vertices[t.vertices[2]],
            ];
            assert(three@ =~= corner_points(t.corners(), vertices@));
            triangle_indices.push(t.vertices);
            triangle_points.push(three);
            i += 1;
        }
        let m = Self {
            vertices,
            triangles: triangle_points,
            triangle_indices,
            quads: None,
            quad_indices: None,
        };
        assert(m.tri_corners() =~= triangles@.map_values(|t: Triangle| t.corners()));
        m
    }

    /// The quads as corner quadruples; none for a mesh without quads.
    pub open spec fn quad_corners(self) -> Seq<QuadCorners> {
        match self.quad_indices {
            Some(indices) => index_quads(indices@),
            None => Seq::empty(),
        }
    }

    /// The mesh invariant: every element names vertices of the mesh that lie
    /// in the working range, every triangle has a strictly positive
    /// Jacobian, and every quad a strictly positive minimum Jacobian.
    pub open spec fn valid(self) -> bool {
        &&& forall|i: int|
            0 <= i < self.tri_corners().len() ==> {
                &&& corners_in_bounds(#[trigger] self.tri_corners()[i], self.vertices.len() as int)
                &&& corners_within(self.tri_corners()[i], self.vertices@, EXTENT as int)
                &&& corners_jacobian(self.tri_corners()[i], self.vertices@) > 0
            }
        &&& forall|i: int|
            0 <= i < self.quad_corners().len() ==> {
                &&& quad_in_bounds(#[trigger] self.quad_corners()[i], self.vertices.len() as int)
                &&& quad_within(self.quad_corners()[i], self.vertices@, EXTENT as int)
                &&& quad_positive(self.quad_corners()[i], self.vertices@)
            }
    }

    /// The outcome of validation: the fault of the first faulty triangle, or
    /// else that of the first faulty quad, or else success.
    pub open spec fn validation(self) -> Result<(), MeshError> {
        match first_triangle_fault(
            self.tri_corners(),
            self.vertices@,
            self.tri_corners().len() as int,
        ) {
            Some(e) => Err(e),
            None => match first_quad_fault(
                self.quad_corners(),
                self.vertices@,
                self.quad_corners().len() as int,
            ) {
                Some(e) => Err(e),
                None => Ok(()),
            },
        }
    }

    /// Builds a mesh of triangles and quads over one vertex list.
    pub fn new_with_quads(vertices: Vec<Point>, triangles: Vec<Triangle>, quads: Vec<Quad>) -> (m:
        Self)
        requires
            forall|i: int|
                0 <= i < triangles.len() ==> corners_in_bounds(
                    (#[trigger] triangles[i]).corners(),
                    vertices.len() as int,
                ),
            forall|i: int|
                0 <= i < quads.len() ==> quad_in_bounds(
                    (#[trigger] quads[i]).corners(),
                    vertices.len() as int,
                ),
        ensures
            m.vertices@ == vertices@,
            m.tri_corners() == triangles@.map_values(|t: Triangle| t.corners()),
            m.quad_corners() == quads@.map_values(|q: Quad| q.corners()),
            m.triangles_in_bounds(),
            m.triangles_denormalized(),
            m.quads_denormalized(),
    {
        let mut quad_indices: Vec<[usize; 4]> = Vec::new();
        let mut quad_points_list: Vec<Vec<Point>> = Vec::new();
        let mut i: usize = 0;
        while i < quads.len()
            invariant
                i <= quads.len(),
                quad_indices.len() == i,
                quad_points_list.len() == i,
                forall|k: int|
                    0 <= k < quads.len() ==> quad_in_bounds(
                        (#[trigger] quads[k]).corners(),
                        vertices.len() as int,
                    ),
                forall|k: int| 0 <= k < i ==> (#[trigger] quad_indices@[k]) == quads[k].vertices,
                forall|k: int|
                    0 <= k < i ==> (#[trigger] quad_points_list[k])@ == quad_points(
                        quads[k].corners(),
                        vertices@,
                    ),
            decreases quads.len() - i,
        {
            let q = &quads[i];
            assert(quad_in_bounds(q.corners(), vertices.len() as int));
            let four: Vec<Point> = vec![
                vertices[q.vertices[0]],
                vertices[q.vertices[1]],
                vertices[q.vertices[2]],
                vertices[q.vertices[3]],
            ];
            assert(four@ =~= quad_points(q.corners(), vertices@));
            quad_indices.push(q.vertices);
            quad_points_list.push(four);
            i += 1;
        }
        let ghost given = vertices@;
        let mut m = Self::new(vertices, triangles);
        m.quads = Some(quad_points_list);
        m.quad_indices = Some(quad_indices);
        assert(m.quad_corners() =~= quads@.map_values(|q: Quad| q.corners()));
        m
    }

    /// Every element names vertices of the mesh that lie in the working
    /// range.
    pub open spec fn elements_in_range(self) -> bool {
        &&& forall|i: int|
            0 <= i < self.tri_corners().len() ==> corners_in_bounds(
                #[trigger] self.tri_corners()[i],
                self.vertices.len() as int,
            ) && corners_within(self.tri_corners()[i], self.vertices@, EXTENT as int)
        &&& forall|i: int|
            0 <= i < self.quad_corners().len() ==> quad_in_bounds(
                #[trigger] self.quad_corners()[i],
                self.vertices.len() as int,
            ) && quad_within(self.quad_corners()[i], self.vertices@, EXTENT as int)
    }

    /// The Jacobians of all elements: see [`element_jacobians`].
    pub open spec fn jacobians(self) -> Seq<int> {
        element_jacobians(self.tri_corners(), self.quad_corners(), self.vertices@)
    }

    /// The least, the greatest and the mean Jacobian over all elements, in
    /// sixteenths of a grid cell; the mean is rounded toward zero.  The
    /// least is positive exactly when the mesh is valid.
    pub fn get_jacobian_stats(&self) -> (stats: (i128, i128, i128))
        requires
            self.elements_in_range(),
        ensures
            stats.0 == least(self.jacobians(), self.jacobians().len() as int),
            stats.0 > 0 <==> self.valid(),
            stats.1 == greatest(self.jacobians(), self.jacobians().len() as int),
            stats.2 == mean(self.jacobians()),
    {
        let ghost values = self.jacobians();
        let ghost tris = self.tri_corners();
        let ghost quads = self.quad_corners();
        let mut min_jac: i128 = i128::MAX;
        let mut max_jac: i128 = i128::MIN;
        let mut sum_jac: i128 = 0;
        let mut count: u128 = 0;
        let mut i: usize = 0;
        while i < self.triangle_indices.len()
            invariant
                i <= self.triangle_indices.len(),
                self.elements_in_range(),
                values == self.jacobians(),
                tris == self.tri_corners(),
                quads == self.quad_corners(),
                count == i,
                min_jac == least(values, i as int),
                min_jac > 0 <==> forall|k: int|
                    0 <= k < i ==> corners_jacobian(#[trigger] tris[k], self.vertices@) > 0,
                max_jac == greatest(values, i as int),
                sum_jac == total(values, i as int),
                -(count * 500_000_000_000_000_000) <= sum_jac <= count * 500_000_000_000_000_000,
            decreases self.triangle_indices.len() - i,
        {
            let v = &self.triangle_indices[i];
            assert(tris[i as int] == (v[0], v[1], v[2]));
            assert(corners_in_bounds(tris[i as int], self.vertices.len() as int));
            let jacobian = 16 * orientation(
                &self.vertices[v[0]],
                &self.vertices[v[1]],
                &self.vertices[v[2]],
            );
            assert(values[i as int] == jacobian);
            if jacobian < min_jac {
                min_jac = jacobian;
            }
            if jacobian > max_jac {
                max_jac = jacobian;
            }
            sum_jac = sum_jac + jacobian;
            count = count + 1;
            i += 1;
        }
        if let Some(quad_indices) = &self.quad_indices {
            let mut j: usize = 0;
            while j < quad_indices.len()
                invariant
                    j <= quad_indices.len(),
                    self.elements_in_range(),
                    self.quad_indices == Some(*quad_indices),
                    values == self.jacobians(),
                    tris == self.tri_corners(),
                    quads == self.quad_corners(),
                    quads.len() == quad_indices.len(),
                    tris.len() == self.triangle_indices.len(),
                    count == tris.len() + j,
                    min_jac == least(values, tris.len() + j),
                    min_jac > 0 <==> (forall|k: int|
                        0 <= k < tris.len() ==> corners_jacobian(
                            #[trigger] tris[k],
                            self.vertices@,
                        ) > 0) && (forall|k: int|
                        0 <= k < j ==> quad_positive(#[trigger] quads[k], self.vertices@)),
                    max_jac == greatest(values, tris.len() + j),
                    sum_jac == total(values, tris.len() + j),
                    -(count * 500_000_000_000_000_000) <= sum_jac <= count
                        * 500_000_000_000_000_000,
                decreases quad_indices.len() - j,
            {
                let v = &quad_indices[j];
                assert(quads[j as int] == (v[0], v[1], v[2], v[3]));
                assert(quad_in_bounds(quads[j as int], self.vertices.len() as int));
                let quad = Quad::new(*v);
                let jacobian = quad.min_jacobian(self.vertices.as_slice());
                assert(values[tris.len() + j] == jacobian);
                if jacobian < min_jac {
                    min_jac = jacobian;
                }
                if jacobian > max_jac {
                    max_jac = jacobian;
                }
                sum_jac = sum_jac + jacobian;
                count = count + 1;
                j += 1;
            }
        }
        assert(count == values.len());
        let avg_jac: i128 = if count > 0 {
            sum_jac / (count as i128)
        } else {
            0
        };
        (min_jac, max_jac, avg_jac)
    }

    /// Checks the mesh invariant and names the first element that breaks
    /// it, triangles before quads.
    pub fn validate_jacobians(&self) -> (r: Result<(), MeshError>)
        ensures
            r == self.validation(),
            r is Ok <==> self.valid(),
    {
        let ghost tris = self.tri_corners();
        let n = self.vertices.len();
        let mut i: usize = 0;
        while i < self.triangle_indices.len()
            invariant
                i <= self.triangle_indices.len(),
                n == self.vertices.len(),
                tris == self.tri_corners(),
                first_triangle_fault(tris, self.vertices@, i as int) is None,
                forall|k: int|
                    0 <= k < i ==> {
                        &&& corners_in_bounds(#[trigger] tris[k], n as int)
                        &&& corners_within(tris[k], self.vertices@, EXTENT as int)
                        &&& corners_jacobian(tris[k], self.vertices@) > 0
                    },
            decreases self.triangle_indices.len() - i,
        {
            let v = &self.triangle_indices[i];
            assert(tris[i as int] == (v[0], v[1], v[2]));
            if v[0] >= n || v[1] >= n || v[2] >= n {
                proof {
                    lemma_first_triangle_fault_stays(
                        self.tri_corners(),
                        self.vertices@,
                        i + 1,
                        tris.len() as int,
                    );
                }
                return Err(MeshError::IndexOutOfRange { element: i });
            }
            let a = &self.vertices[v[0]];
            let b = &self.vertices[v[1]];
            let c = &self.vertices[v[2]];
            if !(a.is_within(EXTENT) && b.is_within(EXTENT) && c.is_within(EXTENT)) {
                proof {
                    lemma_first_triangle_fault_stays(
                        self.tri_corners(),
                        self.vertices@,
                        i + 1,
                        tris.len() as int,
                    );
                }
                return Err(MeshError::CoordinateOutOfRange);
            }
            let jacobian = orientation(a, b, c);
            if jacobian <= 0 {
                proof {
                    lemma_first_triangle_fault_stays(
                        self.tri_corners(),
                        self.vertices@,
                        i + 1,
                        tris.len() as int,
                    );
                }
                return Err(MeshError::NonPositiveTriangle { index: i, jacobian });
            }
            i += 1;
        }
        if let Some(quad_indices) = &self.quad_indices {
            let ghost quads = self.quad_corners();
            let mut j: usize = 0;
            while j < quad_indices.len()
                invariant
                    j <= quad_indices.len(),
                    n == self.vertices.len(),
                    self.quad_indices == Some(*quad_indices),
                    quads == self.quad_corners(),
                    quads.len() == quad_indices.len(),
                    tris == self.tri_corners(),
                    first_triangle_fault(tris, self.vertices@, tris.len() as int) is None,
                    forall|k: int|
                        0 <= k < tris.len() ==> {
                            &&& corners_in_bounds(#[trigger] tris[k], n as int)
                            &&& corners_within(tris[k], self.vertices@, EXTENT as int)
                            &&& corners_jacobian(tris[k], self.vertices@) > 0
                        },
                    first_quad_fault(quads, self.vertices@, j as int) is None,
                    forall|k: int|
                        0 <= k < j ==> {
                            &&& quad_in_bounds(#[trigger] quads[k], n as int)
                            &&& quad_within(quads[k], self.vertices@, EXTENT as int)
                            &&& quad_positive(quads[k], self.vertices@)
                        },
                decreases quad_indices.len() - j,
            {
                let v = &quad_indices[j];
                assert(quads[j as int] == (v[0], v[1], v[2], v[3]));
                if v[0] >= n || v[1] >= n || v[2] >= n || v[3] >= n {
                    proof {
                        lemma_first_quad_fault_stays(
                            quads,
                            self.vertices@,
                            j + 1,
                            quads.len() as int,
                        );
                    }
                    return Err(MeshError::IndexOutOfRange { element: j });
                }
                if !(self.vertices[v[0]].is_within(EXTENT) && self.vertices[v[1]].is_within(EXTENT)
                    && self.vertices[v[2]].is_within(EXTENT) && self.vertices[v[3]].is_within(
                    EXTENT,
                )) {
                    proof {
                        lemma_first_quad_fault_stays(
                            quads,
                            self.vertices@,
                            j + 1,
                            quads.len() as int,
                        );
                    }
                    return Err(MeshError::CoordinateOutOfRange);
                }
                let quad = Quad::new(*v);
                assert(quad.corners() == quads[j as int]);
                if !quad.is_properly_oriented(self.vertices.as_slice()) {
                    let min_jacobian = quad.min_jacobian(self.vertices.as_slice());
                    proof {
                        lemma_first_quad_fault_stays(
                            quads,
                            self.vertices@,
                            j + 1,
                            quads.len() as int,
                        );
                    }
                    return Err(MeshError::NonPositiveQuad { index: j, min_jacobian });
                }
                j += 1;
            }
        }
        Ok(())
    }
}

/// The Jacobian of every element in sixteenths of a grid cell, triangles
/// before quads: sixteen times the Jacobian of a triangle, the rounded
/// minimum Jacobian of a quad.
pub open spec fn element_jacobians(
    tris: Seq<Corners>,
    quads: Seq<QuadCorners>,
    vertices: Seq<Point>,
) -> Seq<int> {
    Seq::new(
        tris.len() + quads.len(),
        |i: int|
            if i < tris.len() {
                16 * corners_jacobian(tris[i], vertices)
            } else {
                quad_min_jacobian(quads[i - tris.len()], vertices)
            },
    )
}

/// The least of the first `n` values; the largest machine integer for none.
pub open spec fn least(values: Seq<int>, n: int) -> int
    decreases n,
{
    if n <= 0 {
        i128::MAX as int
    } else if values[n - 1] < least(values, n - 1) {
        values[n - 1]
    } else {
        least(values, n - 1)
    }
}

/// The greatest of the first `n` values; the smallest machine integer for
/// none.
pub open spec fn greatest(values: Seq<int>, n: int) -> int
    decreases n,
{
    if n <= 0 {
        i128::MIN as int
    } else if values[n - 1] > greatest(values, n - 1) {
        values[n - 1]
    } else {
        greatest(values, n - 1)
    }
}

/// The sum of the first `n` values.
pub open spec fn total(values: Seq<int>, n: int) -> int
    decreases n,
{
    if n <= 0 {
        0
    } else {
        total(values, n - 1) + values[n - 1]
    }
}

/// The mean of the values rounded toward zero; zero for none.
pub open spec fn mean(values: Seq<int>) -> int {
    if values.len() == 0 {
        0
    } else {
        trunc_div(total(values, values.len() as int), values.len() as int)
    }
}

/// Once a triangle among the first `n` is faulty, the first fault is the same
/// whatever follows.
pub proof fn lemma_first_triangle_fault_stays(
    tris: Seq<Corners>,
    vertices: Seq<Point>,
    n: int,
    m: int,
)
    requires
        first_triangle_fault(tris, vertices, n) is Some,
        n <= m,
    ensures
        first_triangle_fault(tris, vertices, m) == first_triangle_fault(tris, vertices, n),
    decreases m - n,
{
    if n < m {
        lemma_first_triangle_fault_stays(tris, vertices, n, m - 1);
    }
}

/// Once a quad among the first `n` is faulty, the first fault is the same
/// whatever follows.
pub proof fn lemma_first_quad_fault_stays(
    quads: Seq<QuadCorners>,
    vertices: Seq<Point>,
    n: int,
    m: int,
)
    requires
        first_quad_fault(quads, vertices, n) is Some,
        n <= m,
    ensures
        first_quad_fault(quads, vertices, m) == first_quad_fault(quads, vertices, n),
    decreases m - n,
{
    if n < m {
        lemma_first_quad_fault_stays(quads, vertices, n, m - 1);
    }
}

/// Validation reads the vertices and the index lists and nothing else: two
/// meshes that agree on them get the same verdict.  In particular a second
/// validation of one mesh repeats the first, and a mesh that passed still
/// passes after it was built again from its own vertices and indices.
pub proof fn lemma_validation_repeatable(first: Mesh, second: Mesh)
    requires
        first.vertices@ == second.vertices@,
        first.tri_corners() == second.tri_corners(),
        first.quad_corners() == second.quad_corners(),
    ensures
        first.validation() == second.validation(),
        first.valid() == second.valid(),
{
}

} // verus!
